use agenda_table::ingest::get_agenda_from_csv;
use agenda_table::record::AgendaItem;
use agenda_table::render::{render, render_row, CLOSING, INTRO, STYLE};

fn item(time: &str, subject: &str, presenter: &str) -> AgendaItem {
    AgendaItem {
        time: time.to_string(),
        subject: subject.to_string(),
        presenter: presenter.to_string(),
    }
}

#[test]
fn the_intro_is_the_table_opening() {
    let expected = "\n<div class=\"table_component\">\n<table>\n    <caption>\n        <p><strong>Agenda</strong></p>\n    </caption>\n<thead>\n<tr>\n    <th>Time</th>\n    <th>Subject</th>\n    <th>Presenter</th>\n</tr>\n</thead>\n<tbody>\n";
    assert_eq!(INTRO, expected);
}

#[test]
fn the_closing_ends_body_table_and_wrapper() {
    assert_eq!(CLOSING, "</tbody>\n</table>\n</div>\n\n");
}

#[test]
fn the_style_is_one_style_block() {
    assert!(STYLE.starts_with("\n<style>\n.table_component {\n    overflow: auto;\n"));
    assert!(STYLE.ends_with("    color: #000000;\n}\n</style>\n"));
    assert_eq!(STYLE.matches("<style>").count(), 1);
    assert_eq!(STYLE.len(), 867);
}

#[test]
fn an_empty_agenda_renders_as_the_skeleton() {
    let out = render(&Vec::new(), STYLE);
    assert_eq!(out, format!("{}{}{}", STYLE, INTRO, CLOSING));
    let body = out.split("<tbody>").nth(1).unwrap();
    let body = body.split("</tbody>").next().unwrap();
    assert_eq!(body, "\n");
    assert_eq!(out.matches("<td>").count(), 0);
}

#[test]
fn one_record_renders_as_one_row() {
    let out = render(&vec![item("9:00", "Kickoff", "Alice")], "S");
    let expected = format!(
        "S{}<tr>\n    <td>9:00</td>\n    <td>Kickoff</td>\n    <td>Alice</td>\n</tr>\n</tbody>\n</table>\n</div>\n\n",
        INTRO
    );
    assert_eq!(out, expected);
}

#[test]
fn rows_come_in_the_order_of_the_records() {
    let agenda = vec![item("1", "a", "x"), item("2", "b", "y"), item("3", "c", "")];
    let out = render(&agenda, "");
    let rows = "<tr>\n    <td>1</td>\n    <td>a</td>\n    <td>x</td>\n</tr>\n<tr>\n    <td>2</td>\n    <td>b</td>\n    <td>y</td>\n</tr>\n<tr>\n    <td>3</td>\n    <td>c</td>\n    <td></td>\n</tr>\n";
    assert_eq!(out, format!("{}{}{}", INTRO, rows, CLOSING));
}

#[test]
fn a_row_holds_time_subject_presenter_in_that_order() {
    let row = render_row(&item("T", "S", "P"));
    assert_eq!(row, "<tr>\n    <td>T</td>\n    <td>S</td>\n    <td>P</td>\n</tr>\n");
}

#[test]
fn field_values_are_not_escaped() {
    let row = render_row(&item("<b>9</b>", "Q&A", "\"Bob\""));
    assert_eq!(row, "<tr>\n    <td><b>9</b></td>\n    <td>Q&A</td>\n    <td>\"Bob\"</td>\n</tr>\n");
}

#[test]
fn the_style_is_written_as_given() {
    let out = render(&Vec::new(), "<style>p { color: red; }</style>");
    assert_eq!(out, format!("<style>p {{ color: red; }}</style>{}{}", INTRO, CLOSING));
}

#[test]
fn rendering_twice_gives_the_same_bytes() {
    let agenda = vec![item("9:00", "Kickoff", "Alice"), item("10:00", "Planning", "Bob")];
    let first = render(&agenda, STYLE);
    let second = render(&agenda, STYLE);
    assert_eq!(first.as_bytes(), second.as_bytes());
}

#[test]
fn parsed_rows_render_in_file_order() {
    let mut agenda = Vec::new();
    let content = "9:00, Kickoff, Alice\n# lunch break\n10:00, Planning,   Bob  \n";
    assert!(get_agenda_from_csv(&mut agenda, content.as_bytes()).is_ok());
    let out = render(&agenda, "");
    let rows = "<tr>\n    <td>9:00</td>\n    <td>Kickoff</td>\n    <td>Alice</td>\n</tr>\n<tr>\n    <td>10:00</td>\n    <td>Planning</td>\n    <td>Bob</td>\n</tr>\n";
    assert_eq!(out, format!("{}{}{}", INTRO, rows, CLOSING));
}

use agenda_table::ingest::{append_rows, get_agenda_from_csv, item_from_fields, read_rows, IngestError};
use agenda_table::record::AgendaItem;

fn triple(item: &AgendaItem) -> (String, String, String) {
    (item.time.clone(), item.subject.clone(), item.presenter.clone())
}

fn owned(time: &str, subject: &str, presenter: &str) -> (String, String, String) {
    (time.to_string(), subject.to_string(), presenter.to_string())
}

fn fields(parts: &[&str]) -> Vec<String> {
    parts.iter().map(|p| p.to_string()).collect()
}

#[test]
fn rows_with_a_comment_between_them_give_two_records() {
    let content = "9:00, Kickoff, Alice\n# lunch break\n10:00, Planning,   Bob  \n";
    let mut agenda = Vec::new();
    let res = get_agenda_from_csv(&mut agenda, content.as_bytes());
    assert_eq!(res, Ok(()));
    assert_eq!(agenda.len(), 2);
    assert_eq!(triple(&agenda[0]), owned("9:00", "Kickoff", "Alice"));
    assert_eq!(triple(&agenda[1]), owned("10:00", "Planning", "Bob"));
}

#[test]
fn three_field_lines_give_one_record_each_in_file_order() {
    let content = " a ,b , c\nd,e,f\n\tg,\th\t,i \n";
    let mut agenda = Vec::new();
    assert_eq!(get_agenda_from_csv(&mut agenda, content.as_bytes()), Ok(()));
    assert_eq!(agenda.len(), 3);
    assert_eq!(triple(&agenda[0]), owned("a", "b", "c"));
    assert_eq!(triple(&agenda[1]), owned("d", "e", "f"));
    assert_eq!(triple(&agenda[2]), owned("g", "h", "i"));
}

#[test]
fn comment_lines_give_no_record() {
    let mut with = Vec::new();
    let mut without = Vec::new();
    assert_eq!(get_agenda_from_csv(&mut with, b"# first\n1,2,3\n#4,5,6\n7,8,9\n# last\n"), Ok(()));
    assert_eq!(get_agenda_from_csv(&mut without, b"1,2,3\n7,8,9\n"), Ok(()));
    assert_eq!(with.len(), 2);
    assert_eq!(without.len(), 2);
    assert_eq!(triple(&with[0]), triple(&without[0]));
    assert_eq!(triple(&with[1]), triple(&without[1]));
}

#[test]
fn only_comments_give_an_empty_agenda() {
    let mut agenda = Vec::new();
    assert_eq!(get_agenda_from_csv(&mut agenda, b"# a\n# b\n"), Ok(()));
    assert!(agenda.is_empty());
}

#[test]
fn empty_content_gives_an_empty_agenda() {
    let mut agenda = Vec::new();
    assert_eq!(get_agenda_from_csv(&mut agenda, b""), Ok(()));
    assert!(agenda.is_empty());
}

#[test]
fn a_bare_value_halts_ingestion_and_keeps_what_came_before() {
    let content = "9:00, Kickoff, Alice\nlunch\n10:00, Planning, Bob\n";
    let mut agenda = Vec::new();
    let res = get_agenda_from_csv(&mut agenda, content.as_bytes());
    assert_eq!(res, Err(IngestError::MalformedRow { row: 1 }));
    assert_eq!(agenda.len(), 1);
    assert_eq!(triple(&agenda[0]), owned("9:00", "Kickoff", "Alice"));
}

#[test]
fn a_row_of_two_fields_is_malformed() {
    let mut agenda = Vec::new();
    let res = get_agenda_from_csv(&mut agenda, b"9:00, Kickoff\n");
    assert_eq!(res, Err(IngestError::MalformedRow { row: 0 }));
    assert!(agenda.is_empty());
}

#[test]
fn a_row_that_is_not_utf8_is_malformed() {
    let mut agenda = Vec::new();
    let res = get_agenda_from_csv(&mut agenda, b"a,b,c\nd,\xff,f\ng,h,i\n");
    assert_eq!(res, Err(IngestError::MalformedRow { row: 1 }));
    assert_eq!(agenda.len(), 1);
    assert_eq!(triple(&agenda[0]), owned("a", "b", "c"));
}

#[test]
fn fields_after_the_third_are_ignored() {
    let mut agenda = Vec::new();
    assert_eq!(get_agenda_from_csv(&mut agenda, b"9:00,Kickoff,Alice,Room 1,extra\n"), Ok(()));
    assert_eq!(agenda.len(), 1);
    assert_eq!(triple(&agenda[0]), owned("9:00", "Kickoff", "Alice"));
}

#[test]
fn an_empty_presenter_field_is_accepted() {
    let mut agenda = Vec::new();
    assert_eq!(get_agenda_from_csv(&mut agenda, b"9:00,Kickoff,\n"), Ok(()));
    assert_eq!(triple(&agenda[0]), owned("9:00", "Kickoff", ""));
}

#[test]
fn the_first_row_is_data_not_a_header() {
    let mut agenda = Vec::new();
    assert_eq!(get_agenda_from_csv(&mut agenda, b"time,subject,presenter\n"), Ok(()));
    assert_eq!(agenda.len(), 1);
    assert_eq!(triple(&agenda[0]), owned("time", "subject", "presenter"));
}

#[test]
fn unicode_whitespace_is_trimmed_from_fields() {
    let content = "\u{3000}9:00\u{a0}, Kickoff\u{2003},\u{2028}Alice\n";
    let mut agenda = Vec::new();
    assert_eq!(get_agenda_from_csv(&mut agenda, content.as_bytes()), Ok(()));
    assert_eq!(triple(&agenda[0]), owned("9:00", "Kickoff", "Alice"));
}

#[test]
fn records_are_appended_after_those_already_there() {
    let mut agenda = vec![AgendaItem {
        time: "8:00".to_string(),
        subject: "Coffee".to_string(),
        presenter: "".to_string(),
    }];
    assert_eq!(get_agenda_from_csv(&mut agenda, b"9:00,Kickoff,Alice\n"), Ok(()));
    assert_eq!(agenda.len(), 2);
    assert_eq!(triple(&agenda[0]), owned("8:00", "Coffee", ""));
    assert_eq!(triple(&agenda[1]), owned("9:00", "Kickoff", "Alice"));
}

#[test]
fn read_rows_splits_and_trims() {
    let rows = read_rows(b" a , b\n#c\nd,e,f,g\n");
    assert_eq!(rows, vec![Some(fields(&["a", "b"])), Some(fields(&["d", "e", "f", "g"]))]);
}

#[test]
fn read_rows_marks_an_undecodable_row_and_goes_on() {
    let rows = read_rows(b"a,b\n\xfe\nc\n");
    assert_eq!(rows, vec![Some(fields(&["a", "b"])), None, Some(fields(&["c"]))]);
}

#[test]
fn a_quoted_field_keeps_its_comma() {
    let rows = read_rows(b"9:00,\"Plans, and more\",Bob\n");
    assert_eq!(rows, vec![Some(fields(&["9:00", "Plans, and more", "Bob"]))]);
}

#[test]
fn item_from_three_fields() {
    let item = item_from_fields(&fields(&["t", "s", "p"])).unwrap();
    assert_eq!(triple(&item), owned("t", "s", "p"));
}

#[test]
fn item_from_more_fields_takes_the_first_three() {
    let item = item_from_fields(&fields(&["t", "s", "p", "q"])).unwrap();
    assert_eq!(triple(&item), owned("t", "s", "p"));
}

#[test]
fn item_from_fewer_fields_is_none() {
    assert!(item_from_fields(&fields(&["t", "s"])).is_none());
    assert!(item_from_fields(&fields(&["t"])).is_none());
    assert!(item_from_fields(&fields(&[])).is_none());
}

#[test]
fn append_rows_takes_every_full_row() {
    let rows = vec![Some(fields(&["1", "2", "3"])), Some(fields(&["4", "5", "6", "7"]))];
    let mut agenda = Vec::new();
    assert_eq!(append_rows(&mut agenda, &rows), Ok(()));
    assert_eq!(agenda.len(), 2);
    assert_eq!(triple(&agenda[0]), owned("1", "2", "3"));
    assert_eq!(triple(&agenda[1]), owned("4", "5", "6"));
}

#[test]
fn append_rows_stops_at_the_first_short_row() {
    let rows = vec![
        Some(fields(&["1", "2", "3"])),
        Some(fields(&["4", "5"])),
        Some(fields(&["6", "7", "8"])),
    ];
    let mut agenda = Vec::new();
    assert_eq!(append_rows(&mut agenda, &rows), Err(IngestError::MalformedRow { row: 1 }));
    assert_eq!(agenda.len(), 1);
    assert_eq!(triple(&agenda[0]), owned("1", "2", "3"));
}

#[test]
fn append_rows_stops_at_an_undecodable_row() {
    let rows = vec![None, Some(fields(&["6", "7", "8"]))];
    let mut agenda = Vec::new();
    assert_eq!(append_rows(&mut agenda, &rows), Err(IngestError::MalformedRow { row: 0 }));
    assert!(agenda.is_empty());
}

#[test]
fn append_rows_of_nothing_changes_nothing() {
    let mut agenda = Vec::new();
    assert_eq!(append_rows(&mut agenda, &Vec::new()), Ok(()));
    assert!(agenda.is_empty());
}

#[test]
fn a_comment_line_may_begin_with_blanks() {
    let content = "9:00, Kickoff, Alice\n  \t# lunch break\n10:00, Planning, Bob\n";
    let mut agenda = Vec::new();
    assert_eq!(get_agenda_from_csv(&mut agenda, content.as_bytes()), Ok(()));
    assert_eq!(agenda.len(), 2);
    assert_eq!(triple(&agenda[0]), owned("9:00", "Kickoff", "Alice"));
    assert_eq!(triple(&agenda[1]), owned("10:00", "Planning", "Bob"));
}

#[test]
fn a_marker_inside_a_row_is_data() {
    let mut agenda = Vec::new();
    assert_eq!(get_agenda_from_csv(&mut agenda, b"9:00, Issue #12, Alice\n"), Ok(()));
    assert_eq!(triple(&agenda[0]), owned("9:00", "Issue #12", "Alice"));
}

#[test]
fn a_last_comment_line_needs_no_newline() {
    let mut agenda = Vec::new();
    assert_eq!(get_agenda_from_csv(&mut agenda, b"1,2,3\n # end"), Ok(()));
    assert_eq!(agenda.len(), 1);
    assert_eq!(triple(&agenda[0]), owned("1", "2", "3"));
}

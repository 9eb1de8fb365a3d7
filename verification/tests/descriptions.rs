use wtf_cli::descriptions::parse_description;
use wtf_cli::search::board_id_of_choice;

fn seg(text: &str, url: Option<&str>) -> (String, Option<String>) {
    (text.to_string(), url.map(|u| u.to_string()))
}

#[test]
fn links_are_cut_out_of_descriptions() {
    let desc = "Agenda<br>JIRA[<a href=\"https://j/browse/P-1\">P-1 Title</a>] then &amp; more";
    assert_eq!(
        parse_description(desc),
        vec![seg("Agenda\n", None), seg("P-1 Title", Some("https://j/browse/P-1")), seg(" then & more", None)]
    );
}

#[test]
fn a_description_without_links_is_one_cleaned_piece() {
    assert_eq!(parse_description("Hello <b>World</b> <p>!</p>"), vec![seg("Hello <b>World</b> !", None)]);
    assert_eq!(parse_description(""), vec![seg("", None)]);
}

#[test]
fn back_to_back_links() {
    let desc = "JIRA[<a href=\"u1\">A</a>]JIRA[<a href=\"u2\">B</a>]";
    assert_eq!(parse_description(desc), vec![seg("A", Some("u1")), seg("B", Some("u2"))]);
}

#[test]
fn a_link_needs_an_address_and_a_text() {
    assert_eq!(parse_description("JIRA[<a href=\"\">x</a>]"), vec![seg("JIRA[x]", None)]);
}

#[test]
fn the_board_id_is_read_from_the_picked_suggestion() {
    assert_eq!(board_id_of_choice("[123] My board"), Some("123".to_string()));
    assert_eq!(board_id_of_choice("My [x] board [42]"), Some("42".to_string()));
    assert_eq!(board_id_of_choice("[] board"), None);
    assert_eq!(board_id_of_choice("[12 board"), None);
}

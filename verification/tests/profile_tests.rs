use hn_cli::errors::HnError;
use hn_cli::scrape::extract_profile;

#[test]
fn unrecognized_rows_alone_mean_profile_not_found() {
    let html = r#"<html><body><table>
    <tr><td>shoe size:</td><td>42</td></tr>
    </table></body></html>"#;
    assert_eq!(extract_profile(html).unwrap_err(), HnError::ProfileNotFound);
}

#[test]
fn karma_row_alone_yields_only_karma() {
    let html = r#"<html><body><table>
    <tr><td>karma:</td><td> 1234 </td></tr>
    </table></body></html>"#;
    let p = extract_profile(html).expect("karma row is recognized");
    assert_eq!(p.karma.as_deref(), Some("1234"));
    assert_eq!(p.username, None);
    assert_eq!(p.created, None);
    assert_eq!(p.about_html, None);
}

#[test]
fn full_profile_extraction() {
    let html = r#"<html><body><table>
    <tr><td>user:</td><td>pg</td></tr>
    <tr><td>created:</td><td>February 19, 2007</td></tr>
    <tr><td>karma:</td><td>157236</td></tr>
    <tr><td>about:</td><td> Bug fixer. <b>Essays</b> at example. </td></tr>
    </table></body></html>"#;
    let p = extract_profile(html).expect("all rows recognized");
    assert_eq!(p.username.as_deref(), Some("pg"));
    assert_eq!(p.created.as_deref(), Some("February 19, 2007"));
    assert_eq!(p.karma.as_deref(), Some("157236"));
    // the about field keeps inner markup, trimmed
    assert_eq!(p.about_html.as_deref(), Some("Bug fixer. <b>Essays</b> at example."));
}

#[test]
fn labels_need_a_trailing_colon_and_two_cells() {
    let html = r#"<html><body><table>
    <tr><td>karma</td><td>9</td></tr>
    <tr><td>karma:</td><td>8</td><td>extra cell</td></tr>
    </table></body></html>"#;
    assert_eq!(extract_profile(html).unwrap_err(), HnError::ProfileNotFound);
}

#[test]
fn empty_document_is_not_found() {
    assert_eq!(
        extract_profile("<html><body>nothing</body></html>").unwrap_err(),
        HnError::ProfileNotFound
    );
}

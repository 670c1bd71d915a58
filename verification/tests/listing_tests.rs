use hn_cli::errors::HnError;
use hn_cli::listing::{extract_domain, resolve_url};
use hn_cli::scrape::extract_listing;

fn listing_page() -> String {
    r#"<html><body><table>
    <tr class="athing" id="1001">
      <td><span class="rank">1.</span></td>
      <td><span class="titleline"><a href="https://example.com/post">First story</a></span></td>
    </tr>
    <tr><td class="subtext">
      <span class="score">142 points</span> by <a class="hnuser">alice</a>
      <span class="age"><a href="item?id=1001">3 hours ago</a></span>
      <a href="item?id=1001">97&nbsp;comments</a>
    </td></tr>
    <tr class="athing" id="1002">
      <td><span class="rank">2.</span></td>
      <td><span class="titleline"><a href="item?id=1002">Second story</a></span></td>
    </tr>
    <tr><td class="subtext">
      <span class="score">7 points</span> by <a class="hnuser">bob</a>
      <span class="age"><a href="item?id=1002">1 hour ago</a></span>
      <a href="item?id=1002">discuss</a>
    </td></tr>
    </table></body></html>"#
        .to_string()
}

#[test]
fn listing_extracts_fields() {
    let stories = extract_listing(&listing_page(), 1).expect("two stories");
    assert_eq!(stories.len(), 2);

    assert_eq!(stories[0].rank, 1);
    assert_eq!(stories[0].id, "1001");
    assert_eq!(stories[0].title, "First story");
    assert_eq!(stories[0].url.as_deref(), Some("https://example.com/post"));
    assert_eq!(stories[0].points, Some(142));
    assert_eq!(stories[0].author.as_deref(), Some("alice"));
    assert_eq!(stories[0].age.as_deref(), Some("3 hours ago"));
    assert_eq!(stories[0].comments, Some(97));

    // relative link resolved against the site base
    assert_eq!(
        stories[1].url.as_deref(),
        Some("https://news.ycombinator.com/item?id=1002")
    );
    // "discuss" anchor without a leading numeral: no count
    assert_eq!(stories[1].comments, None);
}

#[test]
fn rank_synthesized_from_page_and_position() {
    // five rows without rank labels nor subtext, requested as page 2
    let mut html = String::from("<html><body><table>");
    for i in 0..5 {
        html.push_str(&format!(
            r#"<tr class="athing" id="s{i}"><td><span class="titleline"><a href="x{i}">Story {i}</a></span></td></tr>"#
        ));
    }
    html.push_str("</table></body></html>");
    let stories = extract_listing(&html, 2).expect("five stories");
    assert_eq!(stories.len(), 5);
    // 1-based position 5 on page 2: 30 + 5
    assert_eq!(stories[4].rank, 35);
    assert_eq!(stories[0].rank, 31);
    // no subtext rows: metadata fields absent
    assert_eq!(stories[0].points, None);
    assert_eq!(stories[0].author, None);
}

#[test]
fn empty_titles_are_discarded() {
    let html = r#"<html><body><table>
    <tr class="athing" id="a"><td><span class="titleline"><a href="u">Kept</a></span></td></tr>
    <tr class="athing" id="b"><td><span class="titleline"><a href="u"></a></span></td></tr>
    <tr class="athing" id="c"><td>no title node at all</td></tr>
    </table></body></html>"#;
    let stories = extract_listing(html, 1).expect("one story kept");
    assert_eq!(stories.len(), 1);
    assert_eq!(stories[0].title, "Kept");
    assert!(stories.iter().all(|s| !s.title.is_empty()));
}

#[test]
fn page_without_stories_is_a_structure_error() {
    let err = extract_listing("<html><body><p>nothing here</p></body></html>", 3).unwrap_err();
    assert_eq!(err, HnError::EmptyPage(3));
}

#[test]
fn missing_id_becomes_unknown() {
    let html = r#"<html><body><table>
    <tr class="athing"><td><span class="titleline"><a href="u">T</a></span></td></tr>
    </table></body></html>"#;
    let stories = extract_listing(html, 1).unwrap();
    assert_eq!(stories[0].id, "unknown");
}

#[test]
fn url_resolution() {
    assert_eq!(resolve_url("https://a.example/x"), "https://a.example/x");
    assert_eq!(resolve_url("http://a.example/x"), "http://a.example/x");
    assert_eq!(
        resolve_url("item?id=5"),
        "https://news.ycombinator.com/item?id=5"
    );
    assert_eq!(
        resolve_url("//item?id=5"),
        "https://news.ycombinator.com/item?id=5"
    );
}

#[test]
fn domain_extraction() {
    assert_eq!(extract_domain("https://example.com/a/b"), "example.com");
    assert_eq!(extract_domain("http://sub.example.org"), "sub.example.org");
    assert_eq!(extract_domain("no scheme here"), "no scheme here");
}

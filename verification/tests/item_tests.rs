use hn_cli::item::comment_parents;
use hn_cli::scrape::extract_item;

fn comment_row(id: u32, indent: u32, author: &str, text: &str) -> String {
    format!(
        r#"<tr class="athing comtr" id="c{id}">
          <td class="ind" indent="{indent}"></td>
          <td><span class="comhead"><a class="hnuser">{author}</a>
              <span class="age"><a href="item?id=c{id}">1 hour ago</a></span></span>
            <div class="commtext">{text}</div></td>
        </tr>"#
    )
}

fn detail_page(comment_count: u32) -> String {
    let mut html = String::from(
        r#"<html><body>
        <span class="titleline"><a href="https://example.com/story">The story</a></span>
        <div class="toptext">  Some   body
        text  </div>
        <table>"#,
    );
    for i in 0..comment_count {
        html.push_str(&comment_row(i, i % 3, "carol", "A comment body."));
    }
    html.push_str("</table></body></html>");
    html
}

#[test]
fn item_extracts_title_url_and_body() {
    let item = extract_item(&detail_page(2));
    assert_eq!(item.title.as_deref(), Some("The story"));
    assert_eq!(item.url.as_deref(), Some("https://example.com/story"));
    // whitespace flattened, ends trimmed
    assert_eq!(item.body.as_deref(), Some("Some body text"));
    assert_eq!(item.total_comments, 2);
    assert_eq!(item.comments.len(), 2);
    assert_eq!(item.remaining_comments(), 0);
}

#[test]
fn thirteen_comments_materialize_ten_with_remainder_three() {
    let item = extract_item(&detail_page(13));
    assert_eq!(item.total_comments, 13);
    assert_eq!(item.comments.len(), 10);
    assert_eq!(item.remaining_comments(), 3);
}

#[test]
fn comment_fields_and_depth() {
    let item = extract_item(&detail_page(4));
    assert_eq!(item.comments[0].depth, 0);
    assert_eq!(item.comments[1].depth, 1);
    assert_eq!(item.comments[2].depth, 2);
    assert_eq!(item.comments[0].author.as_deref(), Some("carol"));
    assert_eq!(item.comments[0].age_text.as_deref(), Some("1 hour ago"));
    assert_eq!(item.comments[0].lines, vec!["A comment body.".to_string()]);
}

#[test]
fn deleted_comment_author_placeholder() {
    let html = r#"<html><body><table>
    <tr class="athing comtr" id="c1">
      <td class="ind" indent="0"></td>
      <td><span class="comhead"><span class="age"><a href="x">2 days ago</a></span></span>
        <div class="commtext">orphan text</div></td>
    </tr>
    </table></body></html>"#;
    let item = extract_item(html);
    assert_eq!(item.comments.len(), 1);
    assert_eq!(item.comments[0].author.as_deref(), Some("[deleted]"));
}

#[test]
fn no_comments_is_a_distinct_state_not_an_error() {
    let html = r#"<html><body>
    <span class="titleline"><a href="https://example.com/s">Quiet story</a></span>
    </body></html>"#;
    let item = extract_item(html);
    assert_eq!(item.total_comments, 0);
    assert!(item.comments.is_empty());
    assert_eq!(item.body, None);
}

#[test]
fn title_without_link_target_still_yields_title() {
    let html = r#"<html><body>
    <span class="titleline"><a>Ask-style title</a></span>
    </body></html>"#;
    let item = extract_item(html);
    assert_eq!(item.title.as_deref(), Some("Ask-style title"));
    assert_eq!(item.url, None);
}

#[test]
fn comment_body_lines_are_cleaned_and_wrapped() {
    let long = "word ".repeat(40); // 200 characters of words
    let html = format!(
        r#"<html><body><table>{}</table></body></html>"#,
        comment_row(1, 0, "dave", long.trim())
    );
    let item = extract_item(&html);
    // wrap width at depth 0 is 78: no line may reach it
    assert!(item.comments[0].lines.len() > 1);
    assert!(item.comments[0].lines.iter().all(|l| l.chars().count() < 78));
    // nothing lost: rejoining gives back the cleaned text
    assert_eq!(item.comments[0].lines.join(" "), long.trim());
}

#[test]
fn parents_follow_the_stack_discipline() {
    let depths: Vec<usize> = vec![0, 1, 2, 1, 5, 0];
    let parents = comment_parents(&depths);
    assert_eq!(
        parents,
        vec![None, Some(0), Some(1), Some(0), Some(3), None]
    );
}

#[test]
fn parents_tolerate_depth_gaps() {
    // a jump from 0 straight to 3 nests directly under the previous comment
    let depths: Vec<usize> = vec![0, 3, 3, 1];
    let parents = comment_parents(&depths);
    assert_eq!(parents, vec![None, Some(0), Some(0), Some(0)]);
}

use mv_toolkit::confluence::{
    attachment_text, create_page_payload, find_child_page, next_version, update_page_payload, upload_comment, ConfluenceClient,
};
use mv_toolkit::publish::{published_dir, video_type_title};

fn client() -> ConfluenceClient {
    ConfluenceClient::new("https://wiki.example.com//", "me", "SECRET-REDACTED")
}

#[test]
fn client_trims_the_base_url() {
    let c = client();
    assert_eq!(c.base_url, "https://wiki.example.com");
    assert_eq!(c.username, "me");
    assert_eq!(ConfluenceClient::new("", "u", "t").base_url, "");
}

#[test]
fn request_urls() {
    let c = client();
    assert_eq!(c.content_url(), "https://wiki.example.com/rest/api/content");
    assert_eq!(c.page_url("42"), "https://wiki.example.com/rest/api/content/42");
    assert_eq!(
        c.page_by_title_url("SP", "Automated Report: 2024-01-31 09:15:00"),
        "https://wiki.example.com/rest/api/content?spaceKey=SP&title=Automated%20Report%3A%202024-01-31%2009%3A15%3A00&expand=version"
    );
    assert_eq!(c.page_by_id_url("42"), "https://wiki.example.com/rest/api/content/42?expand=version");
    assert_eq!(c.child_pages_url("42"), "https://wiki.example.com/rest/api/content/42/child/page?limit=200");
    assert_eq!(
        c.attachment_query_url("42", "run0_call tree.html"),
        "https://wiki.example.com/rest/api/content/42/child/attachment?filename=run0_call%20tree.html"
    );
    assert_eq!(c.attachment_upload_url("42", None), "https://wiki.example.com/rest/api/content/42/child/attachment");
    assert_eq!(
        c.attachment_upload_url("42", Some("att7")),
        "https://wiki.example.com/rest/api/content/42/child/attachment/att7/data"
    );
    assert_eq!(c.download_url("/download/x.txt"), "https://wiki.example.com/download/x.txt");
}

#[test]
fn page_versions_and_attachment_texts() {
    assert_eq!(next_version(Some(7)), 8);
    assert_eq!(next_version(None), 1);
    assert_eq!(attachment_text(0, "text"), None);
    assert_eq!(attachment_text(12, "  \n "), None);
    assert_eq!(attachment_text(12, "\n No differences \n"), Some("No differences".to_string()));
    assert_eq!(upload_comment("a.png"), "Uploaded a.png.");
}

#[test]
fn page_payloads_are_json() {
    let create = create_page_payload("SP", "Title \"q\"", "<p>a\\b</p>\n", "9");
    assert_eq!(
        create,
        "{\"ancestors\":[{\"id\":\"9\"}],\"body\":{\"storage\":{\"representation\":\"storage\",\"value\":\"<p>a\\\\b</p>\\n\"}},\"space\":{\"key\":\"SP\"},\"title\":\"Title \\\"q\\\"\",\"type\":\"page\"}"
    );
    let v: serde_json::Value = serde_json::from_str(&create).unwrap();
    assert_eq!(v["title"], "Title \"q\"");
    assert_eq!(v["body"]["storage"]["value"], "<p>a\\b</p>\n");
    let update = update_page_payload("9", "SP", "T", "b\u{1}", 3);
    let u: serde_json::Value = serde_json::from_str(&update).unwrap();
    assert_eq!(u["version"]["number"], 3);
    assert_eq!(u["id"], "9");
    assert_eq!(u["body"]["storage"]["value"], "b\u{1}");
    assert_eq!(u["metadata"]["properties"]["content-appearance-draft"]["value"], "full-width");
    assert!(update.contains("\"value\":\"b\\u0001\""));
    let expected: serde_json::Value = serde_json::from_str(
        "{\"id\":\"9\",\"type\":\"page\",\"title\":\"T\",\"space\":{\"key\":\"SP\"},\
         \"body\":{\"storage\":{\"value\":\"b\\u0001\",\"representation\":\"storage\"}},\
         \"version\":{\"number\":3},\"metadata\":{\"properties\":{\
         \"content-appearance-draft\":{\"value\":\"full-width\"},\
         \"content-appearance-published\":{\"value\":\"full-width\"}}}}",
    )
    .unwrap();
    assert_eq!(update, serde_json::to_string(&expected).unwrap());
}

#[test]
fn published_copy_location() {
    assert_eq!(published_dir("/home/u/mv/results/h264/run1"), "/home/u/mv/published/h264/run1");
    assert_eq!(published_dir("/a/results/results/b"), "/a/published/results/b");
    assert_eq!(published_dir("results/x"), "results/x");
}

#[test]
fn video_type_titles() {
    assert_eq!(video_type_title("h264_cabac"), "h264 cabac");
    assert_eq!(video_type_title("vp9"), "vp9");
}

#[test]
fn child_pages_are_found_by_title() {
    let page = |t: Option<&str>, id: Option<&str>| (t.map(String::from), id.map(String::from));
    let children = vec![page(None, Some("1")), page(Some("h264 cabac"), None), page(Some("h264 cabac"), Some("3")), page(Some("x"), Some("4"))];
    assert_eq!(find_child_page(&children, "h264 cabac"), Some(None));
    assert_eq!(find_child_page(&children, "x"), Some(Some("4".to_string())));
    assert_eq!(find_child_page(&children, "y"), None);
    assert_eq!(find_child_page(&Vec::new(), "x"), None);
}

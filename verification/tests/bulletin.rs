use bulletin::data::Data;
use bulletin::data::Post;
use bulletin::fetch::check_reply;
use bulletin::fetch::data_of_records;
use bulletin::fetch::filter_or_default;
use bulletin::fetch::query_params;
use bulletin::fetch::FetchError;
use bulletin::fetch::HttpReply;
use bulletin::fetch::PostRecord;
use bulletin::json::encode_data;
use bulletin::tags::parse_tags;
use bulletin::tags::str_eq;

// Drives the real engine the way the program does: the library's verified
// engine context, handed to tera with auto-escaping on.
fn render(template: &str, data: &Data) -> Result<String, String> {
    let context = bulletin::engine::context_of_data(data);
    tera::Tera::one_off(template, &context, true).map_err(|e| format!("{}", e))
}

#[test]
fn test_render() {
    let template = "{{ posts[0].href }}";
    let mut posts = vec![Post::default()];
    posts[0].href = "foo".to_owned();
    let data = Data { posts };

    let result = render(template, &data);

    assert!(result.is_ok());
    assert_eq!(result.unwrap(), "foo".to_owned());
}

#[test]
fn tags_keep_well_formed_pairs() {
    let tags = parse_tags("type:article lang:en noop");
    assert_eq!(tags.len(), 2);
    assert_eq!(tags.get("type"), Some(&"article".to_owned()));
    assert_eq!(tags.get("lang"), Some(&"en".to_owned()));
    assert_eq!(tags.get("noop"), None);
}

#[test]
fn tags_empty_input() {
    let tags = parse_tags("");
    assert_eq!(tags.len(), 0);
    assert_eq!(tags.get("anything"), None);
}

#[test]
fn tags_drop_tokens_with_extra_colons() {
    let tags = parse_tags("a:b:c d:e");
    assert_eq!(tags.get("a"), None);
    assert_eq!(tags.get("d"), Some(&"e".to_owned()));
}

#[test]
fn tags_later_pair_overwrites_earlier() {
    let tags = parse_tags("dup:1 dup:2");
    assert_eq!(tags.get("dup"), Some(&"2".to_owned()));
}

#[test]
fn tags_drop_pairs_with_empty_sides() {
    let tags = parse_tags(":x y: a:b");
    assert_eq!(tags.len(), 1);
    assert_eq!(tags.get(""), None);
    assert_eq!(tags.get("y"), None);
    assert_eq!(tags.get("a"), Some(&"b".to_owned()));
}

#[test]
fn tags_split_on_any_whitespace() {
    let tags = parse_tags("a:1\tb:2\nc:3");
    assert_eq!(tags.get("a"), Some(&"1".to_owned()));
    assert_eq!(tags.get("b"), Some(&"2".to_owned()));
    assert_eq!(tags.get("c"), Some(&"3".to_owned()));
}

#[test]
fn tags_split_on_unicode_whitespace() {
    let tags = parse_tags("a:1\u{a0}b:2\u{2028}c:3");
    assert_eq!(tags.get("a"), Some(&"1".to_owned()));
    assert_eq!(tags.get("b"), Some(&"2".to_owned()));
    assert_eq!(tags.get("c"), Some(&"3".to_owned()));
}

#[test]
fn str_eq_compares_contents() {
    assert!(str_eq("abc", "abc"));
    assert!(!str_eq("abc", "abd"));
    assert!(!str_eq("abc", "ab"));
    assert!(str_eq("", ""));
}

#[test]
fn encode_empty_data() {
    let data = Data { posts: vec![] };
    assert_eq!(encode_data(&data), "{\"posts\":[]}");
}

#[test]
fn encode_one_post_with_escapes() {
    let mut post = Post::default();
    post.href = "a\"b\\c\n".to_owned();
    post.time = "2020-01-01T00:00:00Z".to_owned();
    let data = Data { posts: vec![post] };
    assert_eq!(
        encode_data(&data),
        "{\"posts\":[{\"href\":\"a\\\"b\\\\c\\u000a\",\"title\":\"\",\"description\":\"\",\"tags\":{},\"time\":\"2020-01-01T00:00:00Z\"}]}"
    );
}

#[test]
fn encode_post_with_tags() {
    let mut post = Post::default();
    post.tags = parse_tags("lang:en type:article");
    let data = Data { posts: vec![post] };
    assert_eq!(
        encode_data(&data),
        "{\"posts\":[{\"href\":\"\",\"title\":\"\",\"description\":\"\",\"tags\":{\"lang\":\"en\",\"type\":\"article\"},\"time\":\"\"}]}"
    );
}

#[test]
fn render_empty_posts_iterates_zero_times() {
    let template = "{% for p in posts %}x{% endfor %}";
    let data = Data { posts: vec![] };
    let result = render(template, &data);
    assert_eq!(result, Ok("".to_owned()));
}

#[test]
fn render_malformed_template_is_an_error() {
    let template = "{{ posts[0].href";
    let data = Data { posts: vec![] };
    let result = render(template, &data);
    assert!(result.is_err());
}

#[test]
fn render_auto_escapes_output() {
    let mut post = Post::default();
    post.href = "<b>&</b>".to_owned();
    let data = Data { posts: vec![post] };
    let result = render("{{ posts[0].href }}", &data);
    assert_eq!(result, Ok("&lt;b&gt;&amp;&lt;&#x2F;b&gt;".to_owned()));
}

#[test]
fn render_reaches_decoded_tags() {
    let mut post = Post::default();
    post.tags = parse_tags("lang:en");
    let data = Data { posts: vec![post] };
    let result = render("{{ posts[0].tags.lang }}", &data);
    assert_eq!(result, Ok("en".to_owned()));
}

#[test]
fn check_reply_success_hands_body_on() {
    let reply = HttpReply::Response { success: true, body: "[]".to_owned() };
    assert_eq!(check_reply(reply), Ok("[]".to_owned()));
}

#[test]
fn check_reply_bad_status_is_request_failed() {
    let reply = HttpReply::Response { success: false, body: "ignored".to_owned() };
    let err = check_reply(reply).unwrap_err();
    assert!(matches!(err, FetchError::RequestFailed));
    assert_eq!(err.message(), "Request to Pinboard API failed for unknown reason.");
}

#[test]
fn check_reply_transport_error_is_distinct() {
    let reply = HttpReply::Failed { error: "connection refused".to_owned() };
    let err = check_reply(reply).unwrap_err();
    assert!(matches!(err, FetchError::Transport(_)));
    assert!(!matches!(err, FetchError::RequestFailed));
    assert_eq!(err.message(), "connection refused");
}

#[test]
fn records_become_posts_with_decoded_tags() {
    let record = PostRecord {
        href: "https://example.org".to_owned(),
        title: "a title".to_owned(),
        description: "a description".to_owned(),
        tags: "type:article lang:en noop".to_owned(),
        time: "2020-01-01T00:00:00Z".to_owned(),
    };
    let data = data_of_records(Ok(vec![record])).unwrap();
    assert_eq!(data.posts.len(), 1);
    assert_eq!(data.posts[0].href, "https://example.org");
    assert_eq!(data.posts[0].title, "a title");
    assert_eq!(data.posts[0].description, "a description");
    assert_eq!(data.posts[0].time, "2020-01-01T00:00:00Z");
    assert_eq!(data.posts[0].tags.get("type"), Some(&"article".to_owned()));
    assert_eq!(data.posts[0].tags.get("lang"), Some(&"en".to_owned()));
    assert_eq!(data.posts[0].tags.get("noop"), None);
}

#[test]
fn decode_failure_is_a_parse_error() {
    let err = data_of_records(Err("unexpected end of input".to_owned())).unwrap_err();
    assert!(matches!(err, FetchError::Parse(_)));
    assert_eq!(err.message(), "unexpected end of input");
}

#[test]
fn query_carries_token_and_filter() {
    let q = query_params("user:token123", "books");
    assert_eq!(q.len(), 3);
    assert_eq!(q[0], ("format".to_owned(), "json".to_owned()));
    assert_eq!(q[1], ("auth_token".to_owned(), "user:token123".to_owned()));
    assert_eq!(q[2], ("tag".to_owned(), "books".to_owned()));
}

#[test]
fn missing_filter_defaults_to_empty() {
    assert_eq!(filter_or_default(None), "");
    assert_eq!(filter_or_default(Some("a,b".to_owned())), "a,b");
    let q = query_params("tok", &filter_or_default(None));
    assert_eq!(q[2], ("tag".to_owned(), "".to_owned()));
}

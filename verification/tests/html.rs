use mini_http::html::{Charset, Html, HtmlDom, Lang};

#[test]
fn html_formatted_properly() {
    let html = Html {
        root_node: HtmlDom::Html(Lang::En, vec![
            HtmlDom::Head(vec![
                HtmlDom::Meta(Some(Charset::Utf8), vec![]),
                HtmlDom::Title(vec![
                    HtmlDom::Text(String::from("Hello!"))])]),
            HtmlDom::Body(vec![
                HtmlDom::H1(vec![
                    HtmlDom::Text(String::from("Hello!"))]),
                HtmlDom::P(vec![
                    HtmlDom::Text(String::from("Hi from Rust!"))])])])};
    assert_eq!("\
<!DOCTYPE html>
<html lang=\"en\">
<head>
<meta charset=\"utf-8\">
</meta>
<title>
Hello!
</title>
</head>
<body>
<h1>
Hello!
</h1>
<p>
Hi from Rust!
</p>
</body>
</html>
",
    html.to_string());
}

#[test]
fn text_node_is_one_line() {
    assert_eq!(HtmlDom::Text(String::from("plain")).to_string(), "plain\n");
    assert_eq!(HtmlDom::Text(String::new()).to_string(), "\n");
}

#[test]
fn meta_without_charset_has_no_attribute() {
    assert_eq!(HtmlDom::Meta(None, vec![]).to_string(), "<meta>\n</meta>\n");
    assert_eq!(
        HtmlDom::Meta(Some(Charset::Utf8), vec![HtmlDom::Text(String::from("x"))]).to_string(),
        "<meta charset=\"utf-8\">\nx\n</meta>\n"
    );
}

#[test]
fn empty_nodes_render_both_tags() {
    assert_eq!(HtmlDom::Html(Lang::En, vec![]).to_string(), "<html lang=\"en\">\n</html>\n");
    assert_eq!(HtmlDom::Head(vec![]).to_string(), "<head>\n</head>\n");
    assert_eq!(HtmlDom::Body(vec![]).to_string(), "<body>\n</body>\n");
    assert_eq!(HtmlDom::Title(vec![]).to_string(), "<title>\n</title>\n");
    assert_eq!(HtmlDom::H1(vec![]).to_string(), "<h1>\n</h1>\n");
    assert_eq!(HtmlDom::P(vec![]).to_string(), "<p>\n</p>\n");
}

#[test]
fn children_render_in_order_and_depth_first() {
    let tree = HtmlDom::Body(vec![
        HtmlDom::P(vec![HtmlDom::Text(String::from("one")), HtmlDom::Text(String::from("two"))]),
        HtmlDom::H1(vec![]),
        HtmlDom::Text(String::from("three")),
    ]);
    assert_eq!(tree.to_string(), "<body>\n<p>\none\ntwo\n</p>\n<h1>\n</h1>\nthree\n</body>\n");
    let mut out = String::from(">> ");
    tree.write_to(&mut out);
    assert_eq!(out, ">> <body>\n<p>\none\ntwo\n</p>\n<h1>\n</h1>\nthree\n</body>\n");
}

#[test]
fn attribute_values_have_names() {
    assert_eq!(Charset::Utf8.to_string(), "utf-8");
    assert_eq!(Lang::En.to_string(), "en");
}

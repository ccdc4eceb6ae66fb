//! The one page that the server knows, and the response that carries it.

use vstd::prelude::*;
use vstd::string::*;
use crate::html::{Charset, Html, HtmlDom, Lang};
use crate::http::Response;
use crate::string_map::StringMap;
use crate::wire::ResponseView;

verus! {

/// The markup of the head of the welcome page, line by line.
pub open spec fn head_markup() -> Seq<char> {
    "<head>\n"@ + "<meta charset=\"utf-8\">\n"@ + "</meta>\n"@ + "<title>\n"@ + "Hello!\n"@
        + "</title>\n"@ + "</head>\n"@
}

/// The markup of the body of the welcome page, line by line.
pub open spec fn body_markup() -> Seq<char> {
    "<body>\n"@ + "<h1>\n"@ + "Hello!\n"@ + "</h1>\n"@ + "<p>\n"@ + "Hi from Rust!\n"@ + "</p>\n"@
        + "</body>\n"@
}

/// The markup of the welcome page: the doctype, then the head and the body
/// within the `html` tags.
pub open spec fn welcome_markup() -> Seq<char> {
    "<!DOCTYPE html>\n"@ + ("<html lang=\"en\">\n"@ + head_markup() + body_markup()
        + "</html>\n"@)
}

/// The markup of a node without siblings is its own.
proof fn lemma_render_one(kids: Seq<HtmlDom>)
    requires
        kids.len() == 1,
    ensures
        HtmlDom::render_all(kids) == kids[0].render(),
{
    assert(HtmlDom::render_all(kids.drop_last()) =~= Seq::empty());
    assert(HtmlDom::render_all(kids) =~= kids[0].render());
}

/// The markup of two siblings is that of the first, then that of the second.
proof fn lemma_render_two(kids: Seq<HtmlDom>)
    requires
        kids.len() == 2,
    ensures
        HtmlDom::render_all(kids) == kids[0].render() + kids[1].render(),
{
    lemma_render_one(kids.drop_last());
}

/// The lines of the page that are written in pieces.
proof fn lemma_lines()
    ensures
        "Hello!"@ + "\n"@ == "Hello!\n"@,
        "Hi from Rust!"@ + "\n"@ == "Hi from Rust!\n"@,
        "<meta"@ + (" charset=\""@ + "utf-8"@ + "\""@) + ">\n"@ == "<meta charset=\"utf-8\">\n"@,
        "<html lang=\""@ + "en"@ + "\">\n"@ == "<html lang=\"en\">\n"@,
{
    reveal_strlit("\n");
    reveal_strlit("Hello!");
    reveal_strlit("Hello!\n");
    reveal_strlit("Hi from Rust!");
    reveal_strlit("Hi from Rust!\n");
    assert("Hello!"@ + "\n"@ =~= "Hello!\n"@);
    assert("Hi from Rust!"@ + "\n"@ =~= "Hi from Rust!\n"@);
    assert("<meta"@ + (" charset=\""@ + "utf-8"@ + "\""@) + ">\n"@ =~= "<meta charset=\"utf-8\">\n"@)
        by {
        reveal_strlit("<meta");
        reveal_strlit(" charset=\"");
        reveal_strlit("utf-8");
        reveal_strlit("\"");
        reveal_strlit(">\n");
        reveal_strlit("<meta charset=\"utf-8\">\n");
    }
    assert("<html lang=\""@ + "en"@ + "\">\n"@ =~= "<html lang=\"en\">\n"@) by {
        reveal_strlit("<html lang=\"");
        reveal_strlit("en");
        reveal_strlit("\">\n");
        reveal_strlit("<html lang=\"en\">\n");
    }
}

/// The head of the welcome page: the character set and the title.
fn welcome_head() -> (head: HtmlDom)
    ensures
        head.render() == head_markup(),
{
    let meta = HtmlDom::Meta(Some(Charset::Utf8), Vec::new());
    let title = HtmlDom::Title(vec![HtmlDom::Text(String::from_str("Hello!"))]);
    proof {
        lemma_lines();
        assert(HtmlDom::render_all(meta->Meta_1@) =~= Seq::empty());
        assert(meta.render() =~= "<meta charset=\"utf-8\">\n"@ + "</meta>\n"@);
        lemma_render_one(title->Title_0@);
        assert(title.render() =~= "<title>\n"@ + "Hello!\n"@ + "</title>\n"@);
    }
    let head = HtmlDom::Head(vec![meta, title]);
    proof {
        lemma_render_two(head->Head_0@);
        assert(head.render() =~= "<head>\n"@ + "<meta charset=\"utf-8\">\n"@ + "</meta>\n"@
            + "<title>\n"@ + "Hello!\n"@ + "</title>\n"@ + "</head>\n"@);
    }
    head
}

/// The body of the welcome page: a heading and a paragraph.
fn welcome_body() -> (body: HtmlDom)
    ensures
        body.render() == body_markup(),
{
    let h1 = HtmlDom::H1(vec![HtmlDom::Text(String::from_str("Hello!"))]);
    let p = HtmlDom::P(vec![HtmlDom::Text(String::from_str("Hi from Rust!"))]);
    proof {
        lemma_lines();
        lemma_render_one(h1->H1_0@);
        assert(h1.render() =~= "<h1>\n"@ + "Hello!\n"@ + "</h1>\n"@);
        lemma_render_one(p->P_0@);
        assert(p.render() =~= "<p>\n"@ + "Hi from Rust!\n"@ + "</p>\n"@);
    }
    let body = HtmlDom::Body(vec![h1, p]);
    proof {
        lemma_render_two(body->Body_0@);
        assert(body.render() =~= "<body>\n"@ + "<h1>\n"@ + "Hello!\n"@ + "</h1>\n"@ + "<p>\n"@
            + "Hi from Rust!\n"@ + "</p>\n"@ + "</body>\n"@);
    }
    body
}

/// The welcome page.
pub fn welcome_page() -> (page: Html)
    ensures
        page.render() == welcome_markup(),
{
    let head = welcome_head();
    let body = welcome_body();
    let root = HtmlDom::Html(Lang::En, vec![head, body]);
    proof {
        lemma_lines();
        lemma_render_two(root->Html_1@);
        assert(root.render() =~= "<html lang=\"en\">\n"@ + head_markup() + body_markup()
            + "</html>\n"@);
    }
    Html { root_node: root }
}

/// The response that carries the welcome page: code 200, message `OK`, no
/// header entry, and the page's markup as body.
pub fn welcome_response() -> (response: Response)
    ensures
        response@ == (ResponseView {
            code: 200,
            message: "OK"@,
            headers: Seq::empty(),
            body: welcome_markup(),
        }),
{
    Response {
        code: 200,
        message: String::from_str("OK"),
        headers: StringMap::new(),
        body: welcome_page().to_string(),
    }
}

} // verus!

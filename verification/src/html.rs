//! A small document tree and its rendering as markup, one line per tag.

use vstd::prelude::*;
use vstd::string::*;

verus! {

/// The character encodings a `meta` node can announce.
#[derive(Clone, Copy, Debug, PartialEq, Eq, Structural)]
pub enum Charset {
    Utf8,
}

/// The languages a document can declare.
#[derive(Clone, Copy, Debug, PartialEq, Eq, Structural)]
pub enum Lang {
    En,
}

/// A node of the document tree. Every kind but `Text` holds child nodes.
#[derive(Debug)]
pub enum HtmlDom {
    Html(Lang, Vec<HtmlDom>),
    Head(Vec<HtmlDom>),
    Meta(Option<Charset>, Vec<HtmlDom>),
    Body(Vec<HtmlDom>),
    Title(Vec<HtmlDom>),
    H1(Vec<HtmlDom>),
    P(Vec<HtmlDom>),
    Text(String),
}

/// A whole document: the tree below its root node.
#[derive(Debug)]
pub struct Html {
    pub root_node: HtmlDom,
}

impl Charset {
    /// The name of the encoding as it is written in an attribute.
    pub open spec fn label(self) -> Seq<char> {
        match self {
            Charset::Utf8 => "utf-8"@,
        }
    }

    /// The name of the encoding.
    pub fn to_string(&self) -> (out: String)
        ensures
            out@ == self.label(),
    {
        match self {
            Charset::Utf8 => String::from_str("utf-8"),
        }
    }
}

impl Lang {
    /// The language code as it is written in an attribute.
    pub open spec fn code(self) -> Seq<char> {
        match self {
            Lang::En => "en"@,
        }
    }

    /// The language code.
    pub fn to_string(&self) -> (out: String)
        ensures
            out@ == self.code(),
    {
        match self {
            Lang::En => String::from_str("en"),
        }
    }
}

/// The ` charset` attribute of a `meta` tag, or nothing where none is set.
pub open spec fn charset_attribute(charset: Option<Charset>) -> Seq<char> {
    match charset {
        Some(set) => " charset=\""@ + set.label() + "\""@,
        None => Seq::empty(),
    }
}

impl HtmlDom {
    /// The markup of the node: for a text node its content as one line, for
    /// any other node the line of its opening tag, its children in order,
    /// and the line of its closing tag.
    pub open spec fn render(self) -> Seq<char>
        decreases self,
    {
        match self {
            HtmlDom::Html(lang, elts) => "<html lang=\""@ + lang.code() + "\">\n"@
                + HtmlDom::render_all(elts@) + "</html>\n"@,
            HtmlDom::Head(elts) => "<head>\n"@ + HtmlDom::render_all(elts@) + "</head>\n"@,
            HtmlDom::Meta(charset, elts) => "<meta"@ + charset_attribute(charset) + ">\n"@
                + HtmlDom::render_all(elts@) + "</meta>\n"@,
            HtmlDom::Body(elts) => "<body>\n"@ + HtmlDom::render_all(elts@) + "</body>\n"@,
            HtmlDom::Title(elts) => "<title>\n"@ + HtmlDom::render_all(elts@) + "</title>\n"@,
            HtmlDom::H1(elts) => "<h1>\n"@ + HtmlDom::render_all(elts@) + "</h1>\n"@,
            HtmlDom::P(elts) => "<p>\n"@ + HtmlDom::render_all(elts@) + "</p>\n"@,
            HtmlDom::Text(content) => content@ + "\n"@,
        }
    }

    /// The markup of a run of sibling nodes, one after the other.
    pub open spec fn render_all(nodes: Seq<HtmlDom>) -> Seq<char>
        decreases nodes,
    {
        if nodes.len() == 0 {
            Seq::empty()
        } else {
            HtmlDom::render_all(nodes.drop_last()) + nodes.last().render()
        }
    }

    /// Appends the markup of `nodes` to `out`.
    fn write_all(nodes: &Vec<HtmlDom>, out: &mut String)
        ensures
            final(out)@ == old(out)@ + HtmlDom::render_all(nodes@),
        decreases nodes,
    {
        let mut i: usize = 0;
        while i < nodes.len()
            invariant
                i <= nodes.len(),
                out@ == old(out)@ + HtmlDom::render_all(nodes@.take(i as int)),
            decreases nodes.len() - i,
        {
            proof {
                broadcast use vstd::std_specs::vec::axiom_vec_index_decreases;
                assert(nodes@.take(i + 1).drop_last() =~= nodes@.take(i as int));
            }
            nodes[i].write_to(out);
            i += 1;
        }
        proof {
            assert(nodes@.take(nodes.len() as int) =~= nodes@);
        }
    }

    /// Appends the markup of the node to `out`.
    pub fn write_to(&self, out: &mut String)
        ensures
            final(out)@ == old(out)@ + self.render(),
        decreases self,
    {
        match self {
            HtmlDom::Html(lang, elts) => {
                out.append("<html lang=\"");
                out.append(lang.to_string().as_str());
                out.append("\">\n");
                HtmlDom::write_all(elts, out);
                out.append("</html>\n");
            },
            HtmlDom::Head(elts) => {
                out.append("<head>\n");
                HtmlDom::write_all(elts, out);
                out.append("</head>\n");
            },
            HtmlDom::Meta(charset, elts) => {
                out.append("<meta");
                match charset {
                    Some(set) => {
                        out.append(" charset=\"");
                        out.append(set.to_string().as_str());
                        out.append("\"");
                    },
                    None => {},
                }
                out.append(">\n");
                HtmlDom::write_all(elts, out);
                out.append("</meta>\n");
            },
            HtmlDom::Body(elts) => {
                out.append("<body>\n");
                HtmlDom::write_all(elts, out);
                out.append("</body>\n");
            },
            HtmlDom::Title(elts) => {
                out.append("<title>\n");
                HtmlDom::write_all(elts, out);
                out.append("</title>\n");
            },
            HtmlDom::H1(elts) => {
                out.append("<h1>\n");
                HtmlDom::write_all(elts, out);
                out.append("</h1>\n");
            },
            HtmlDom::P(elts) => {
                out.append("<p>\n");
                HtmlDom::write_all(elts, out);
                out.append("</p>\n");
            },
            HtmlDom::Text(content) => {
                out.append(content.as_str());
                out.append("\n");
            },
        }
    }

    /// The markup of the node.
    pub fn to_string(&self) -> (out: String)
        ensures
            out@ == self.render(),
    {
        let mut out = String::new();
        self.write_to(&mut out);
        out
    }
}

impl Html {
    /// The markup of the document: the doctype line, then the root node.
    pub open spec fn render(self) -> Seq<char> {
        "<!DOCTYPE html>\n"@ + self.root_node.render()
    }

    /// The markup of the document.
    pub fn to_string(&self) -> (out: String)
        ensures
            out@ == self.render(),
    {
        let mut out = String::from_str("<!DOCTYPE html>\n");
        self.root_node.write_to(&mut out);
        out
    }
}

} // verus!

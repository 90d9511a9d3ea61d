//! Markdown documents with TOML frontmatter: the page format of projects and
//! awards. The frontmatter is found, and the body rendered to HTML, by the
//! `markdown` crate with GitHub-flavoured constructs plus frontmatter.
use vstd::prelude::*;

verus! {

/// Why a page could not be turned into a value.
#[derive(Debug)]
pub enum ReadError {
    /// The file could not be read.
    Io(String),
    /// The document does not open with a TOML frontmatter block.
    MissingFrontmatter,
    /// The frontmatter is not valid TOML for the expected fields.
    InvalidFrontmatter(String),
}

impl ReadError {
    /// The error's text: the reason given by the file system or by the TOML
    /// parser, or `could not find frontmatter`.
    pub fn message(&self) -> (res: String)
        ensures
            match self {
                ReadError::Io(m) => res@ == m@,
                ReadError::MissingFrontmatter => res@ == "could not find frontmatter"@,
                ReadError::InvalidFrontmatter(m) => res@ == m@,
            },
    {
        match self {
            ReadError::Io(m) => m.clone(),
            ReadError::MissingFrontmatter => "could not find frontmatter".to_owned(),
            ReadError::InvalidFrontmatter(m) => m.clone(),
        }
    }
}

/// A markdown document split into its TOML frontmatter text and its body
/// rendered as HTML.
#[derive(Debug)]
pub struct Document {
    pub frontmatter: String,
    pub body: String,
}

/// The text of the TOML frontmatter block that `markdown::to_mdast` finds as
/// the first child of the document, when the first child is such a block.
pub uninterp spec fn toml_frontmatter(text: Seq<char>) -> Option<Seq<char>>;

/// The HTML that `markdown::to_html_with_options` renders for the document.
pub uninterp spec fn markdown_html(text: Seq<char>) -> Seq<char>;

/// Calls `markdown::to_mdast` with GFM constructs and frontmatter enabled and
/// returns the value of the first child when it is a TOML frontmatter node.
/// The result is named by `toml_frontmatter`. `to_mdast` is documented never
/// to fail when MDX is off, which it is here.
#[verifier::external_body]
fn parse_frontmatter(text: &str) -> (res: Option<String>)
    ensures
        match res {
            Some(v) => toml_frontmatter(text@) == Some(v@),
            None => toml_frontmatter(text@) is None,
        },
{
    let options = markdown::ParseOptions {
        constructs: markdown::Constructs { frontmatter: true, ..markdown::Constructs::gfm() },
        ..Default::default()
    };
    let tree = markdown::to_mdast(text, &options).unwrap();
    match tree.children().and_then(|c| c.first()) {
        Some(markdown::mdast::Node::Toml(front)) => Some(front.value.clone()),
        _ => None,
    }
}

/// Calls `markdown::to_html_with_options` with the same parse options and
/// dangerous HTML and protocols allowed. The result is named by
/// `markdown_html`. The function is documented never to fail when MDX is off,
/// which it is here.
#[verifier::external_body]
fn render_html(text: &str) -> (html: String)
    ensures
        html@ == markdown_html(text@),
{
    let parse = markdown::ParseOptions {
        constructs: markdown::Constructs { frontmatter: true, ..markdown::Constructs::gfm() },
        ..Default::default()
    };
    let compile = markdown::CompileOptions {
        allow_dangerous_html: true,
        allow_dangerous_protocol: true,
        ..Default::default()
    };
    markdown::to_html_with_options(text, &markdown::Options { parse, compile }).unwrap()
}

/// Assembles a document from the frontmatter found in it, if any, and its
/// rendered body; a document without frontmatter is refused.
pub fn document_from_parts(frontmatter: Option<String>, body: String) -> (res: Result<
    Document,
    ReadError,
>)
    ensures
        match frontmatter {
            Some(f) => res matches Ok(d) && d.frontmatter@ == f@ && d.body@ == body@,
            None => res matches Err(ReadError::MissingFrontmatter),
        },
{
    match frontmatter {
        Some(f) => Ok(Document { frontmatter: f, body }),
        None => Err(ReadError::MissingFrontmatter),
    }
}

/// Splits the text of a markdown page into its TOML frontmatter and its body
/// rendered to HTML. A page whose first block is not TOML frontmatter is
/// refused with `MissingFrontmatter`.
pub fn read_file(text: &str) -> (res: Result<Document, ReadError>)
    ensures
        match toml_frontmatter(text@) {
            Some(f) => res matches Ok(d) && d.frontmatter@ == f && d.body@ == markdown_html(
                text@,
            ),
            None => res matches Err(ReadError::MissingFrontmatter),
        },
{
    let frontmatter = parse_frontmatter(text);
    match frontmatter {
        None => Err(ReadError::MissingFrontmatter),
        Some(f) => {
            let body = render_html(text);
            document_from_parts(Some(f), body)
        },
    }
}

} // verus!

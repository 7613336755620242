//! Tools: closures as tools, the fetch tool's conversion step, and the
//! names and descriptions derived for a tool function.
use vstd::prelude::*;
use crate::text::{push_char, push_str, trim, trimmed, truncate_text, truncated};

verus! {

/// A tool that runs a closure on the JSON arguments; the closure returns
/// the future of the tool's text output.
pub struct ClosureTool<F> {
    pub func: F,
}

impl<F> ClosureTool<F> {
    /// A tool running `func`.
    pub fn new(func: F) -> (r: Self)
        ensures
            r.func == func,
    {
        ClosureTool { func }
    }

    /// A tool running `func`, kept on the heap.
    pub fn boxed(func: F) -> (r: ClosureTool<Box<F>>)
        ensures
            *r.func == func,
    {
        ClosureTool { func: Box::new(func) }
    }
}

/// What `html2md` makes of an HTML page.
pub uninterp spec fn markdown_of(html: Seq<char>) -> Seq<char>;

/// Relies on `html2md::parse_html`: the Markdown rendering of the page.
#[verifier::external_body]
fn html_to_markdown(html: &str) -> (r: String)
    ensures
        r@ == markdown_of(html@),
{
    html2md::parse_html(html)
}

/// Arguments of the fetch tool.
#[derive(Clone, Debug)]
pub struct FetchArgs {
    /// URL to fetch.
    pub url: String,
}

/// A tool that fetches a web page and hands it back as Markdown.
pub struct Fetch;

impl Fetch {
    pub const NAME: &'static str = "fetch";

    pub const DESCRIPTION: &'static str = "Fetch a webpage and convert HTML to Markdown";

    /// The tool's output for a fetched page.
    pub fn page_output(html: &str) -> (r: String)
        ensures
            r@ == markdown_of(html@),
    {
        html_to_markdown(html)
    }

    /// The tool's output when the request failed.
    pub fn fetch_error_output(detail: &str) -> (r: String)
        ensures
            r@ == "Error fetching URL: "@ + detail@,
    {
        let mut r = "Error fetching URL: ".to_owned();
        push_str(&mut r, detail);
        r
    }

    /// The tool's output when the page could not be read.
    pub fn read_error_output(detail: &str) -> (r: String)
        ensures
            r@ == "Error reading response: "@ + detail@,
    {
        let mut r = "Error reading response: ".to_owned();
        push_str(&mut r, detail);
        r
    }
}

/// How many characters the file tool shows when no length is given.
pub const DEFAULT_READ_LEN: usize = 5000;

/// The file tool's output: the file's text paginated by `truncate_text`
/// from `start` (default 0) up to `len` (default 5000), or the read error.
pub fn read_output(content: Result<String, String>, start: Option<usize>, len: Option<usize>) -> (r: String)
    ensures
        match content {
            Ok(text) => r@ == truncated(
                text@,
                match start { Some(s) => s as nat, None => 0 },
                match len { Some(l) => l as nat, None => DEFAULT_READ_LEN as nat },
            ),
            Err(e) => r@ == "Error reading file: "@ + e@,
        },
{
    match content {
        Ok(text) => {
            let s = match start { Some(s) => s, None => 0 };
            let l = match len { Some(l) => l, None => DEFAULT_READ_LEN };
            truncate_text(text, s, l)
        },
        Err(e) => {
            let mut r = "Error reading file: ".to_owned();
            push_str(&mut r, e.as_str());
            r
        },
    }
}

/// What the upper-case mapping of a character gives.
pub uninterp spec fn upper_of(c: char) -> Seq<char>;

/// Relies on `char::to_uppercase`: the upper-case mapping of the character,
/// one or more characters.
#[verifier::external_body]
fn upper(c: char) -> (r: String)
    ensures
        r@ == upper_of(c),
{
    c.to_uppercase().collect()
}

/// Whether the character after `before` starts a word of a snake-case name.
pub open spec fn word_start(before: Seq<char>) -> bool {
    before.len() == 0 || before.last() == '_'
}

/// What character `c`, after `before`, becomes in PascalCase: underscores
/// go, the first character of each word is upper-cased.
pub open spec fn pascal_piece(before: Seq<char>, c: char) -> Seq<char> {
    if c == '_' {
        Seq::empty()
    } else if word_start(before) {
        upper_of(c)
    } else {
        seq![c]
    }
}

/// The PascalCase form of a snake-case name.
pub open spec fn pascal_case(s: Seq<char>) -> Seq<char>
    decreases s.len(),
{
    if s.len() == 0 {
        Seq::empty()
    } else {
        pascal_case(s.drop_last()) + pascal_piece(s.drop_last(), s.last())
    }
}

/// Turns a snake-case name into PascalCase: `get_weather` becomes
/// `GetWeather`.
pub fn to_pascal_case(s: &str) -> (r: String)
    ensures
        r@ == pascal_case(s@),
{
    let n = s.unicode_len();
    let mut out = String::new();
    let mut at_start = true;
    let mut i: usize = 0;
    while i < n
        invariant
            n == s@.len(),
            i <= n,
            out@ == pascal_case(s@.subrange(0, i as int)),
            at_start == word_start(s@.subrange(0, i as int)),
        decreases n - i,
    {
        let c = s.get_char(i);
        let ghost before = s@.subrange(0, i as int);
        assert(s@.subrange(0, i as int + 1).drop_last() =~= before);
        if c == '_' {
            at_start = true;
        } else if at_start {
            let u = upper(c);
            push_str(&mut out, u.as_str());
            at_start = false;
        } else {
            push_char(&mut out, c);
            at_start = false;
        }
        i += 1;
        assert(out@ =~= pascal_case(s@.subrange(0, i as int)));
    }
    assert(s@.subrange(0, n as int) =~= s@);
    out
}

/// The documentation lines of a tool, each trimmed, joined by line feeds.
pub open spec fn joined_docs(lines: Seq<String>) -> Seq<char>
    decreases lines.len(),
{
    if lines.len() == 0 {
        Seq::empty()
    } else if lines.len() == 1 {
        trimmed(lines[0]@)
    } else {
        joined_docs(lines.drop_last()) + seq!['\n'] + trimmed(lines.last()@)
    }
}

/// What a tool function is advertised as.
#[derive(Clone, Debug)]
pub struct ToolSignature {
    /// The name the model calls the tool by.
    pub tool_name: String,
    /// The name of the tool's argument type: the PascalCase tool name
    /// followed by `Args`.
    pub args_name: String,
    /// The tool's description, from its documentation.
    pub description: String,
}

/// Derives how a tool function is advertised: under `name` when one is
/// given, else under the function's own name; described by its
/// documentation lines, trimmed and joined by line feeds.
pub fn describe_tool(fn_name: &str, name: Option<String>, doc_lines: &Vec<String>) -> (r: ToolSignature)
    ensures
        r.tool_name@ == match name {
            Some(n) => n@,
            None => fn_name@,
        },
        r.args_name@ == pascal_case(r.tool_name@) + "Args"@,
        r.description@ == joined_docs(doc_lines@),
{
    let tool_name = match name {
        Some(n) => n,
        None => fn_name.to_owned(),
    };
    let mut args_name = to_pascal_case(tool_name.as_str());
    push_str(&mut args_name, "Args");
    let mut description = String::new();
    let mut i: usize = 0;
    while i < doc_lines.len()
        invariant
            i <= doc_lines@.len(),
            description@ == joined_docs(doc_lines@.subrange(0, i as int)),
        decreases doc_lines@.len() - i,
    {
        let ghost prefix = doc_lines@.subrange(0, i as int + 1);
        assert(prefix.drop_last() =~= doc_lines@.subrange(0, i as int));
        if i > 0 {
            push_char(&mut description, '\n');
        }
        push_str(&mut description, trim(doc_lines[i].as_str()));
        i += 1;
        assert(description@ =~= joined_docs(doc_lines@.subrange(0, i as int)));
    }
    assert(doc_lines@.subrange(0, doc_lines@.len() as int) =~= doc_lines@);
    ToolSignature { tool_name, args_name, description }
}

} // verus!

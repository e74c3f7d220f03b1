//! The text transformations of the Arc-Lang book's preprocessors.
//!
//! The grammar preprocessor turns each fenced `grammar` block of a chapter
//! into highlighted HTML: keywords in quotes become bold, comments grey,
//! nonterminals in brackets links to their definitions, and the head of
//! each rule an anchor; the result is trimmed and put in a preformatted
//! code element.
use vstd::prelude::*;
use vstd::string::StringExecFns;

verus! {

/// What replacing every match of a regular expression in a text with a
/// replacement template (where `$1`, `${1}` and the like stand for the
/// match's groups) gives, or `None` where the pattern does not compile.
pub uninterp spec fn regex_replaced(pattern: Seq<char>, text: Seq<char>, replacement: Seq<char>) -> Option<
    Seq<char>,
>;

/// A text without its leading and trailing whitespace.
pub uninterp spec fn trimmed(text: Seq<char>) -> Seq<char>;

/// Calls `regex::Regex::new` on the pattern and, where it compiles,
/// `Regex::replace_all` with the template on the text. The contract names
/// the result, `None` exactly where the pattern does not compile.
#[verifier::external_body]
fn replace_all(pattern: &str, text: &str, replacement: &str) -> (r: Option<String>)
    ensures
        r is Some <==> regex_replaced(pattern@, text@, replacement@) is Some,
        r matches Some(s) ==> s@ == regex_replaced(pattern@, text@, replacement@).unwrap(),
{
    let re = regex::Regex::new(pattern).ok()?;
    Some(re.replace_all(text, replacement).into_owned())
}

/// Calls `str::trim`: the text without leading and trailing whitespace.
#[verifier::external_body]
fn trim(text: &str) -> (r: String)
    ensures
        r@ == trimmed(text@),
{
    text.trim().to_string()
}

/// Keywords: a quoted word without spaces.
pub const KEYWORD_PATTERN: &'static str = "\"([^ ]+?)\"";

/// Keywords become bold.
pub const KEYWORD_SUBST: &'static str = "<b>${1}</b>";

/// Comments: what follows a `#` on a line of alternatives or definitions.
pub const COMMENT_PATTERN: &'static str = "( *(?:\\||::=).*)#[^{](.*)";

/// Comments become grey and italic.
pub const COMMENT_SUBST: &'static str = "$1<i style=\"color:gray\">${2}</i>";

/// Nonterminals defined in the same chapter: a name in double brackets.
pub const SUBTERM_PATTERN: &'static str = "\\[\\[([A-Z][A-Za-z]+)\\]\\]";

/// Nonterminals defined in their own chapter: a name in brackets.
pub const NONTERM_PATTERN: &'static str = "\\[([A-Z][A-Za-z]+)\\]";

/// Nonterminals in brackets link to the chapter named after them.
pub const NONTERM_SUBST: &'static str = "<a href=\"${1}.html#${1}\">${1}</a>";

/// The head of a rule: a capitalised name followed by `::=`.
pub const HEAD_PATTERN: &'static str = "([A-Z][A-Za-z]*)( ::=.*)";

/// The link to a nonterminal defined in the chapter `name`.
pub open spec fn subterm_subst(name: Seq<char>) -> Seq<char> {
    "<a href=\""@ + name + ".html#${1}\">${1}</a>"@
}

/// The anchor for the head of a rule of the chapter `name`.
pub open spec fn head_subst(name: Seq<char>) -> Seq<char> {
    "<a id=\"${1}\" href=\""@ + name + ".html#${1}\">${1}</a>$2"@
}

/// The HTML for a grammar block of the chapter `name`: keywords, then
/// comments, then nonterminals of the chapter, then other nonterminals, then
/// rule heads are marked up; the result is trimmed and wrapped in a
/// preformatted code element. `None` where a pattern does not compile.
pub open spec fn grammar_html(block: Seq<char>, name: Seq<char>) -> Option<Seq<char>> {
    let s1 = regex_replaced(KEYWORD_PATTERN@, block, KEYWORD_SUBST@);
    let s2 = regex_replaced(COMMENT_PATTERN@, s1.unwrap(), COMMENT_SUBST@);
    let s3 = regex_replaced(SUBTERM_PATTERN@, s2.unwrap(), subterm_subst(name));
    let s4 = regex_replaced(NONTERM_PATTERN@, s3.unwrap(), NONTERM_SUBST@);
    let s5 = regex_replaced(HEAD_PATTERN@, s4.unwrap(), head_subst(name));
    if s1 is Some && s2 is Some && s3 is Some && s4 is Some && s5 is Some {
        Some("<pre><code>"@ + trimmed(s5.unwrap()) + "</code></pre>"@)
    } else {
        None
    }
}

/// The HTML for a grammar block of the chapter `name` (see `grammar_html`).
pub fn render_grammar(block: &str, name: &str) -> (r: Option<String>)
    ensures
        r is Some <==> grammar_html(block@, name@) is Some,
        r matches Some(s) ==> s@ == grammar_html(block@, name@).unwrap(),
{
    let subterm = String::from_str("<a href=\"").concat(name).concat(".html#${1}\">${1}</a>");
    let head = String::from_str("<a id=\"${1}\" href=\"").concat(name).concat(".html#${1}\">${1}</a>$2");
    let s1 = replace_all(KEYWORD_PATTERN, block, KEYWORD_SUBST)?;
    let s2 = replace_all(COMMENT_PATTERN, s1.as_str(), COMMENT_SUBST)?;
    let s3 = replace_all(SUBTERM_PATTERN, s2.as_str(), subterm.as_str())?;
    let s4 = replace_all(NONTERM_PATTERN, s3.as_str(), NONTERM_SUBST)?;
    let s5 = replace_all(HEAD_PATTERN, s4.as_str(), head.as_str())?;
    let body = trim(s5.as_str());
    Some(String::from_str("<pre><code>").concat(body.as_str()).concat("</code></pre>"))
}

/// The pieces of a text between the matches of a regular expression, in
/// order: one more piece than there are matches, the first before the first
/// match and the last after the last. `None` where the pattern does not
/// compile.
pub uninterp spec fn regex_split(pattern: Seq<char>, text: Seq<char>) -> Option<Seq<Seq<char>>>;

/// The first capture group of each match of a regular expression in a text,
/// in order (`None` for a match in which that group took no part). `None`
/// where the pattern does not compile.
pub uninterp spec fn regex_first_groups(pattern: Seq<char>, text: Seq<char>) -> Option<
    Seq<Option<Seq<char>>>,
>;

/// Calls `regex::Regex::new` on the pattern and, where it compiles,
/// `Regex::split` and `Regex::captures_iter` (taking group 1 of each
/// capture) on the text, collecting each into owned strings. The contract
/// names both results and claims, as the crate's source shows (the split
/// iterator yields the text before each match of the same search and then
/// the rest), that there is one more piece than there are matches.
#[verifier::external_body]
fn split_at_matches(pattern: &str, text: &str) -> (r: Option<(Vec<String>, Vec<Option<String>>)>)
    ensures
        r is Some <==> regex_split(pattern@, text@) is Some,
        r matches Some((gaps, groups)) ==> {
            &&& regex_split(pattern@, text@) == Some(strings_view(gaps@))
            &&& regex_first_groups(pattern@, text@) == Some(groups_view(groups@))
            &&& gaps@.len() == groups@.len() + 1
        },
{
    let re = regex::Regex::new(pattern).ok()?;
    let gaps = re.split(text).map(|s| s.to_string()).collect();
    let groups = re.captures_iter(text).map(|c| c.get(1).map(|m| m.as_str().to_string())).collect();
    Some((gaps, groups))
}

/// The texts of a sequence of strings.
pub open spec fn strings_view(v: Seq<String>) -> Seq<Seq<char>> {
    v.map_values(|s: String| s@)
}

/// The texts of a sequence of optional strings.
pub open spec fn groups_view(v: Seq<Option<String>>) -> Seq<Option<Seq<char>>> {
    v.map_values(|o: Option<String>| match o {
        Some(s) => Some(s@),
        None => None,
    })
}

/// Fenced grammar blocks: the body between three backquotes followed by
/// `grammar` and a line break, and the next three backquotes.
pub const GRAMMAR_BLOCK_PATTERN: &'static str = "(?s)```grammar\\n(.*?)```";

/// What stands in place of a grammar block with body `body` in the chapter
/// `name`: its HTML, or nothing where there is no body or it does not
/// render.
pub open spec fn block_html(body: Option<Seq<char>>, name: Seq<char>) -> Seq<char> {
    match body {
        Some(b) => match grammar_html(b, name) {
            Some(h) => h,
            None => Seq::empty(),
        },
        None => Seq::empty(),
    }
}

/// The first `n` blocks replaced: the first piece, then for each of the
/// first `n` blocks its HTML and the piece after it.
pub open spec fn spliced(
    gaps: Seq<Seq<char>>,
    bodies: Seq<Option<Seq<char>>>,
    name: Seq<char>,
    n: nat,
) -> Seq<char>
    decreases n,
{
    if n == 0 {
        gaps[0]
    } else {
        spliced(gaps, bodies, name, (n - 1) as nat) + block_html(bodies[n - 1], name) + gaps[n as int]
    }
}

/// The chapter `content` of the chapter `name` with every grammar block
/// replaced by its HTML, the text around the blocks kept as it is.
pub open spec fn grammar_chapter(content: Seq<char>, name: Seq<char>) -> Seq<char> {
    let bodies = regex_first_groups(GRAMMAR_BLOCK_PATTERN@, content).unwrap();
    spliced(regex_split(GRAMMAR_BLOCK_PATTERN@, content).unwrap(), bodies, name, bodies.len())
}

/// The preprocessor that marks up grammar blocks.
pub struct Grammar;

impl Grammar {
    pub fn new() -> (g: Grammar) {
        Grammar
    }

    /// The chapter `name` with each fenced grammar block replaced by its
    /// HTML (see `render_grammar`).
    pub fn run_chapter(&self, content: &str, name: &str) -> (r: Option<String>)
        ensures
            r is Some <==> regex_split(GRAMMAR_BLOCK_PATTERN@, content@) is Some,
            r matches Some(s) ==> s@ == grammar_chapter(content@, name@),
    {
        let (gaps, groups) = split_at_matches(GRAMMAR_BLOCK_PATTERN, content)?;
        let ghost gv = strings_view(gaps@);
        let ghost bv = groups_view(groups@);
        let mut out = gaps[0].clone();
        let mut i: usize = 0;
        while i < groups.len()
            invariant
                gaps@.len() == groups@.len() + 1,
                gv == strings_view(gaps@),
                bv == groups_view(groups@),
                i <= groups@.len(),
                out@ == spliced(gv, bv, name@, i as nat),
            decreases groups@.len() - i,
        {
            let html = match &groups[i] {
                Some(b) => match render_grammar(b.as_str(), name) {
                    Some(h) => h,
                    None => String::new(),
                },
                None => String::new(),
            };
            proof {
                assert(bv[i as int] == (match groups@[i as int] {
                    Some(s) => Some(s@),
                    None => None::<Seq<char>>,
                }));
                assert(html@ == block_html(bv[i as int], name@));
                assert(gv[i + 1] == gaps@[i + 1]@);
            }
            out.append(html.as_str());
            out.append(gaps[i + 1].as_str());
            i = i + 1;
        }
        Some(out)
    }
}

/// The preprocessor that replaces `{{#exec command}}` with what the command
/// prints.
pub struct Exec;

/// Commands to run: the text between `{{`, `#exec` and `}}`, spaces
/// around `#exec` left out.
pub const EXEC_PATTERN: &'static str = "\\{\\{\\s*#exec\\s*(.*?)\\}\\}";

/// The first piece, then each output followed by the piece after it: the
/// text with the `i`-th gap between pieces filled by the `i`-th output.
pub open spec fn interleaved(gaps: Seq<Seq<char>>, outputs: Seq<Seq<char>>) -> Seq<char>
    decreases outputs.len(),
{
    if outputs.len() == 0 {
        gaps[0]
    } else {
        interleaved(gaps.drop_last(), outputs.drop_last()) + outputs.last() + gaps.last()
    }
}

impl Exec {
    pub fn new() -> (e: Exec) {
        Exec
    }

    /// The commands of a chapter and the text around them: the pieces
    /// between the commands, and the command of each, in order.
    pub fn commands(&self, content: &str) -> (r: Option<(Vec<String>, Vec<Option<String>>)>)
        ensures
            r is Some <==> regex_split(EXEC_PATTERN@, content@) is Some,
            r matches Some((gaps, commands)) ==> {
                &&& strings_view(gaps@) == regex_split(EXEC_PATTERN@, content@).unwrap()
                &&& groups_view(commands@) == regex_first_groups(EXEC_PATTERN@, content@).unwrap()
                &&& gaps@.len() == commands@.len() + 1
            },
    {
        split_at_matches(EXEC_PATTERN, content)
    }

    /// The chapter with each command replaced by what it printed: the
    /// pieces around the commands with the outputs in between.
    pub fn splice(&self, gaps: &Vec<String>, outputs: &Vec<String>) -> (r: String)
        requires
            gaps@.len() == outputs@.len() + 1,
        ensures
            r@ == interleaved(strings_view(gaps@), strings_view(outputs@)),
    {
        let ghost gv = strings_view(gaps@);
        let ghost ov = strings_view(outputs@);
        let mut out = gaps[0].clone();
        let mut i: usize = 0;
        while i < outputs.len()
            invariant
                gaps@.len() == outputs@.len() + 1,
                gv == strings_view(gaps@),
                ov == strings_view(outputs@),
                i <= outputs@.len(),
                out@ == interleaved(gv.take(i + 1), ov.take(i as int)),
            decreases outputs@.len() - i,
        {
            proof {
                assert(gv.take(i + 2).drop_last() =~= gv.take(i + 1));
                assert(ov.take(i + 1).drop_last() =~= ov.take(i as int));
                assert(gv.take(i + 2).last() == gaps@[i + 1]@);
                assert(ov.take(i + 1).last() == outputs@[i as int]@);
            }
            out.append(outputs[i].as_str());
            out.append(gaps[i + 1].as_str());
            i = i + 1;
        }
        proof {
            assert(gv.take(i + 1) =~= gv);
            assert(ov.take(i as int) =~= ov);
        }
        out
    }
}

} // verus!

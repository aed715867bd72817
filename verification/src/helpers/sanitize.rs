use vstd::prelude::*;

use crate::text::{
    all_ascii, asciify, char_in, chars_of, collapse_whitespace, join, join_with,
    lemma_asciify_is_ascii, lemma_collapse_keeps_ascii, lemma_collapse_whitespace_laws,
    no_adjacent_white_space, only_plain_spaces, replace_non_ascii, replace_whitespace_runs,
};

verus! {

/// The text nodes of the HTML fragment `fragment`, in document order, as
/// the scraper crate's HTML parser reads them.
pub uninterp spec fn html_text_nodes(fragment: Seq<char>) -> Seq<Seq<char>>;

/// `scraper::Html::parse_fragment` followed by `root_element().text()`: the
/// text nodes under the fragment's root element, in document order.  The
/// contract only names the result: it is a function of the fragment alone.
#[verifier::external_body]
fn fragment_text_nodes(fragment: &str) -> (r: Vec<String>)
    ensures
        r.deep_view() == html_text_nodes(fragment@),
{
    let parsed = scraper::Html::parse_fragment(fragment);
    parsed.root_element().text().map(String::from).collect()
}

/// The text of `input` with markup taken out and white space tidied: every
/// non-ASCII character becomes a space; where a `<` is left, the text nodes
/// of the input read as HTML, joined by spaces, take its place; every run of
/// white space then becomes one space.
pub open spec fn sanitized(input: Seq<char>) -> Seq<char> {
    let ascii = asciify(input);
    if ascii.contains('<') {
        collapse_whitespace(join(html_text_nodes(ascii), seq![' ']))
    } else {
        collapse_whitespace(ascii)
    }
}

/// The text nodes `nodes` joined by spaces, each run of white space then
/// made one space.
pub fn text_from_nodes(nodes: Vec<String>) -> (r: String)
    ensures
        r@ == collapse_whitespace(join(nodes.deep_view(), seq![' '])),
{
    proof {
        reveal_strlit(" ");
        assert(" "@ =~= seq![' ']);
    }
    assert(nodes@.map_values(|p: String| p@) =~= nodes.deep_view());
    let joined = join_with(nodes.as_slice(), " ");
    replace_whitespace_runs(joined.as_str())
}

/// Plain text out of a piece of filing text that may hold HTML.
pub fn html(input: String) -> (r: String)
    ensures
        r@ == sanitized(input@),
{
    let output = replace_non_ascii(input.as_str());
    let cs = chars_of(output.as_str());
    if char_in(cs.as_slice(), '<') {
        let nodes = fragment_text_nodes(output.as_str());
        text_from_nodes(nodes)
    } else {
        replace_whitespace_runs(output.as_str())
    }
}

/// Sanitized text never holds two neighbouring white-space characters nor
/// white space other than the plain space; and where the input had no `<`
/// (once non-ASCII characters became spaces) the result is ASCII.
pub proof fn lemma_sanitized_laws(input: Seq<char>)
    ensures
        no_adjacent_white_space(sanitized(input)),
        only_plain_spaces(sanitized(input)),
        !asciify(input).contains('<') ==> all_ascii(sanitized(input)),
{
    let ascii = asciify(input);
    lemma_asciify_is_ascii(input);
    if ascii.contains('<') {
        lemma_collapse_whitespace_laws(join(html_text_nodes(ascii), seq![' ']));
    } else {
        lemma_collapse_whitespace_laws(ascii);
        lemma_collapse_keeps_ascii(ascii);
    }
}

/// The result depends on the input only through the input with its
/// non-ASCII characters made spaces: two inputs that agree there sanitize
/// alike, so where a `<` is present the markup that is read is the ASCII
/// text, never a non-ASCII character of the input.
pub proof fn lemma_sanitized_sees_only_ascii(a: Seq<char>, b: Seq<char>)
    requires
        asciify(a) == asciify(b),
    ensures
        sanitized(a) == sanitized(b),
{
}

/// Replacing a non-ASCII character of the input by any other non-ASCII
/// character, or by a space, does not change the result.
pub proof fn lemma_sanitized_ignores_non_ascii_choice(a: Seq<char>, i: int, c: char)
    requires
        0 <= i < a.len(),
        (a[i] as u32) >= 0x80,
        (c as u32) >= 0x80 || c == ' ',
    ensures
        sanitized(a.update(i, c)) == sanitized(a),
{
    assert(asciify(a.update(i, c)) =~= asciify(a));
}

} // verus!

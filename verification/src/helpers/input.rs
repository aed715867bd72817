use vstd::prelude::*;
use vstd::utf8::is_char_boundary;

use crate::decimal::{padded_cik, padded_decimal, parse_u64, parsed_u64};
use crate::text::{
    bytes_match_at, bytes_of, chars_of, contains_chars, has_infix, lemma_split_by_nonempty,
    lemma_split_pieces_hold_no_separator, remove_all, remove_occurrences, split_by, split_on_any,
    str_eq,
};

verus! {

/// Where an input names its XML: on the SEC's servers or on the local disk.
#[derive(Clone, Copy, Debug, PartialEq, Eq, Structural)]
pub enum InputType {
    Local,
    Remote,
}

/// An input string, where it points and whether it names an XML file there.
#[derive(Clone, Debug)]
pub struct Input {
    pub input: String,
    pub input_type: InputType,
    pub valid: bool,
}

/// What an input string names: the XML file's base name and, for an EDGAR
/// address, the filer's CIK (ten digits) and the accession number.
#[derive(Clone, Debug)]
pub struct InputDetails {
    pub raw_input: String,
    pub xml_name: String,
    pub input_type: InputType,
    pub cik: Option<String>,
    pub accession_number: Option<String>,
}

/// The start of every EDGAR archive address.
pub open spec fn edgar_prefix() -> Seq<char> {
    "https://www.sec.gov/Archives/edgar/data"@
}

/// An input that mentions the SEC's host is an address, any other a path.
pub open spec fn is_remote(input: Seq<char>) -> bool {
    has_infix(input, "sec.gov"@)
}

/// The last four bytes of `input` are `.xml`.
pub open spec fn ends_in_xml(input: Seq<char>) -> bool {
    let b = bytes_of(input);
    b.subrange(b.len() - 4, b.len() as int) == bytes_of(".xml"@)
}

/// An address is valid when its first 39 bytes are the EDGAR archive prefix
/// and it ends in `.xml`; a path when the file exists and ends in `.xml`.
pub open spec fn input_valid(input: Seq<char>, local_file_exists: bool) -> bool {
    if is_remote(input) {
        bytes_of(input).subrange(0, 39) == bytes_of(edgar_prefix()) && ends_in_xml(input)
    } else {
        local_file_exists && ends_in_xml(input)
    }
}

/// The byte offsets at which the checks cut the input lie inside it and on
/// character boundaries (elsewhere slicing the string would panic).
pub open spec fn input_cuts_ok(input: Seq<char>) -> bool {
    let b = bytes_of(input);
    let tail_ok = b.len() >= 4 && is_char_boundary(b, b.len() - 4);
    if is_remote(input) {
        &&& b.len() >= 39
        &&& is_char_boundary(b, 39)
        &&& b.subrange(0, 39) == bytes_of(edgar_prefix()) ==> tail_ok
    } else {
        tail_ok
    }
}

/// The path segments of an address (split at `/`).
pub open spec fn url_segments(input: Seq<char>) -> Seq<Seq<char>> {
    split_by(input, seq!['/'])
}

/// An address has a seventh segment that is a number and an eighth one.
pub open spec fn details_readable(input: Seq<char>) -> bool {
    &&& url_segments(input).len() >= 8
    &&& parsed_u64(url_segments(input)[6]) is Some
}

/// The base name of the XML file: the input with every `.xml` removed, after
/// its last `.`, `/` or `\`.
pub open spec fn xml_name_of(input: Seq<char>) -> Seq<char> {
    split_by(remove_occurrences(input, ".xml"@), seq!['.', '/', '\\']).last()
}

/// The user agent that the SEC is sent: the part of the address before its
/// first `@`, a dash, and the address.
pub open spec fn user_agent(email: Seq<char>) -> Seq<char> {
    split_by(email, seq!['@'])[0] + seq![' ', '-', ' '] + email
}

pub proof fn lemma_edgar_prefix_bytes()
    ensures
        bytes_of(edgar_prefix()).len() == 39,
        bytes_of(".xml"@).len() == 4,
{
    reveal_strlit("https://www.sec.gov/Archives/edgar/data");
    reveal_strlit(".xml");
    assert(vstd::utf8::is_ascii_chars(edgar_prefix()));
    assert(vstd::utf8::is_ascii_chars(".xml"@));
    vstd::utf8::is_ascii_chars_encode_utf8(edgar_prefix());
    vstd::utf8::is_ascii_chars_encode_utf8(".xml"@);
}

impl Input {
    /// Classifies `input` and checks it: an address must start with the
    /// EDGAR archive prefix, a path must name an existing file (whether it
    /// does is `local_file_exists`), and both must end in `.xml`.  With
    /// `raise_exception` set, an invalid input is refused (callers check
    /// `input_valid` first).
    pub fn parse_input(input: String, raise_exception: bool, local_file_exists: bool) -> (r: Input)
        requires
            input_cuts_ok(input@),
            raise_exception ==> input_valid(input@, local_file_exists),
        ensures
            r.input@ == input@,
            r.input_type == (if is_remote(input@) { InputType::Remote } else { InputType::Local }),
            r.valid == input_valid(input@, local_file_exists),
    {
        let cs = chars_of(input.as_str());
        let host = chars_of("sec.gov");
        let remote = contains_chars(cs.as_slice(), host.as_slice());
        let b = input.as_str().as_bytes();
        let xml = ".xml".as_bytes();
        proof {
            lemma_edgar_prefix_bytes();
        }
        let valid = if remote {
            let prefix = "https://www.sec.gov/Archives/edgar/data".as_bytes();
            bytes_match_at(b, 0, prefix) && bytes_match_at(b, b.len() - 4, xml)
        } else {
            local_file_exists && bytes_match_at(b, b.len() - 4, xml)
        };
        let input_type = if remote { InputType::Remote } else { InputType::Local };
        Input { input, input_type, valid }
    }

    /// The details of a valid input (see `parse_input` and `InputDetails::new`).
    pub fn new(input: String, local_file_exists: bool) -> (r: InputDetails)
        requires
            input_cuts_ok(input@),
            input_valid(input@, local_file_exists),
            is_remote(input@) ==> details_readable(input@),
        ensures
            r.raw_input@ == input@,
            r.xml_name@ == xml_name_of(input@),
            r.input_type == (if is_remote(input@) { InputType::Remote } else { InputType::Local }),
            is_remote(input@) ==> r.cik.deep_view() == Some(
                padded_decimal(parsed_u64(url_segments(input@)[6])->0 as nat),
            ),
            is_remote(input@) ==> r.accession_number.deep_view() == Some(url_segments(input@)[7]),
            !is_remote(input@) ==> r.cik is None && r.accession_number is None,
    {
        InputDetails::new(Input::parse_input(input, true, local_file_exists))
    }
}

impl InputDetails {
    /// The base name of the input's XML file and, for an address, the CIK
    /// (its seventh `/`-segment, read as a number and padded with zeros to
    /// ten digits) and the accession number (its eighth segment).
    pub fn new(input: Input) -> (r: InputDetails)
        requires
            input.input_type == InputType::Remote ==> details_readable(input.input@),
        ensures
            r.raw_input@ == input.input@,
            r.xml_name@ == xml_name_of(input.input@),
            r.input_type == input.input_type,
            input.input_type == InputType::Remote ==> r.cik.deep_view() == Some(
                padded_decimal(parsed_u64(url_segments(input.input@)[6])->0 as nat),
            ),
            input.input_type == InputType::Remote ==> r.accession_number.deep_view() == Some(
                url_segments(input.input@)[7],
            ),
            input.input_type == InputType::Local ==> r.cik is None && r.accession_number is None,
    {
        let raw_input = input.input.clone();
        let tmp = remove_all(raw_input.as_str(), ".xml");
        let seps: [char; 3] = ['.', '/', '\\'];
        assert(seps@ =~= seq!['.', '/', '\\']);
        let pieces = split_on_any(tmp.as_str(), &seps);
        let last = pieces.len() - 1;
        assert(pieces.deep_view()[last as int] == pieces@[last as int]@);
        let xml_name = pieces[last].clone();
        let mut output = InputDetails {
            raw_input: raw_input.clone(),
            xml_name,
            input_type: input.input_type,
            cik: None,
            accession_number: None,
        };
        if input.input_type == InputType::Remote {
            let slash: [char; 1] = ['/'];
            assert(slash@ =~= seq!['/']);
            let segments = split_on_any(raw_input.as_str(), &slash);
            assert(segments.deep_view()[6] == segments@[6]@);
            assert(segments.deep_view()[7] == segments@[7]@);
            let cik = match parse_u64(segments[6].as_str()) {
                Some(v) => v,
                None => {
                    assert(false);
                    0
                },
            };
            output.cik = Some(padded_cik(cik));
            output.accession_number = Some(segments[7].clone());
        }
        output
    }
}

/// The user agent for requests to the SEC: the name before the `@` of the
/// address, ` - `, and the address.  The placeholder `no_email` is refused
/// (callers check it first).
pub fn gen_ua(email: String) -> (r: String)
    requires
        email@ != "no_email"@,
    ensures
        r@ == user_agent(email@),
{
    let at: [char; 1] = ['@'];
    assert(at@ =~= seq!['@']);
    let parts = split_on_any(email.as_str(), &at);
    assert(parts.deep_view()[0] == parts@[0]@);
    let mut r = parts[0].clone();
    proof {
        reveal_strlit(" - ");
    }
    r.append(" - ");
    r.append(email.as_str());
    r
}

/// Whether `email` is the placeholder that stands for no address.
pub fn is_no_email(email: &str) -> (r: bool)
    ensures
        r == (email@ == "no_email"@),
{
    str_eq(email, "no_email")
}

/// Whether `Input::parse_input` can cut `input` where it checks it.
pub fn input_cuts_are_ok(input: &str) -> (r: bool)
    ensures
        r == input_cuts_ok(input@),
{
    let cs = chars_of(input);
    let host = chars_of("sec.gov");
    let remote = contains_chars(cs.as_slice(), host.as_slice());
    let b = input.as_bytes();
    let n = b.len();
    proof {
        lemma_edgar_prefix_bytes();
    }
    let tail_ok = n >= 4 && input.is_char_boundary(n - 4);
    if remote {
        if n < 39 || !input.is_char_boundary(39) {
            return false;
        }
        let prefix = "https://www.sec.gov/Archives/edgar/data".as_bytes();
        !bytes_match_at(b, 0, prefix) || tail_ok
    } else {
        tail_ok
    }
}

/// Whether `InputDetails::new` can read the CIK and accession number of the
/// address `input`.
pub fn details_are_readable(input: &str) -> (r: bool)
    ensures
        r == details_readable(input@),
{
    let slash: [char; 1] = ['/'];
    assert(slash@ =~= seq!['/']);
    let segments = split_on_any(input, &slash);
    if segments.len() < 8 {
        return false;
    }
    assert(segments.deep_view()[6] == segments@[6]@);
    parse_u64(segments[6].as_str()).is_some()
}

/// The base name holds no `.`, `/` or `\`.
pub proof fn lemma_xml_name_has_no_separator(input: Seq<char>)
    ensures
        forall|i: int|
            0 <= i < xml_name_of(input).len() ==> {
                let c = #[trigger] xml_name_of(input)[i];
                c != '.' && c != '/' && c != '\\'
            },
{
    let seps = seq!['.', '/', '\\'];
    let t = remove_occurrences(input, ".xml"@);
    lemma_split_by_nonempty(t, seps);
    lemma_split_pieces_hold_no_separator(t, seps);
    let k = split_by(t, seps).len() - 1;
    assert forall|i: int| 0 <= i < xml_name_of(input).len() implies {
        let c = #[trigger] xml_name_of(input)[i];
        c != '.' && c != '/' && c != '\\'
    } by {
        let c = split_by(t, seps)[k][i];
        assert(!seps.contains(c));
        assert(seps[0] == '.' && seps[1] == '/' && seps[2] == '\\');
    }
}

/// The user agent ends in the address it was made from.
pub proof fn lemma_user_agent_ends_in_email(email: Seq<char>)
    ensures
        user_agent(email).len() >= email.len(),
        user_agent(email).subrange(user_agent(email).len() - email.len(), user_agent(email).len() as int)
            == email,
{
    let ua = user_agent(email);
    assert(ua.subrange(ua.len() - email.len(), ua.len() as int) =~= email);
}

/// A path is valid exactly when the file exists and its last four bytes are
/// `.xml`; nothing else about its text matters.  An address is valid exactly
/// when its first 39 bytes are the EDGAR archive prefix and its last four
/// bytes are `.xml`.
pub proof fn lemma_input_valid_law(input: Seq<char>, local_file_exists: bool)
    requires
        bytes_of(input).len() >= 4,
    ensures
        !is_remote(input) ==> (input_valid(input, local_file_exists) <==> (local_file_exists
            && bytes_of(input).subrange(bytes_of(input).len() - 4, bytes_of(input).len() as int)
            == seq![0x2eu8, 0x78u8, 0x6du8, 0x6cu8])),
        is_remote(input) ==> (input_valid(input, local_file_exists) <==> (bytes_of(input).subrange(0, 39)
            == bytes_of("https://www.sec.gov/Archives/edgar/data"@) && bytes_of(input).subrange(
            bytes_of(input).len() - 4,
            bytes_of(input).len() as int,
        ) == seq![0x2eu8, 0x78u8, 0x6du8, 0x6cu8])),
{
    reveal_strlit(".xml");
    assert(vstd::utf8::is_ascii_chars(".xml"@));
    vstd::utf8::is_ascii_chars_encode_utf8(".xml"@);
    assert(bytes_of(".xml"@) =~= seq![0x2eu8, 0x78u8, 0x6du8, 0x6cu8]);
}

/// Whether a path is valid does not depend on whether it names a directory
/// part: for two paths that both end in `.xml` and are not addresses, both
/// are valid or both not, and that is whether the file exists.
pub proof fn lemma_local_validity_ignores_path_shape(a: Seq<char>, b: Seq<char>, exists: bool)
    requires
        !is_remote(a),
        !is_remote(b),
        ends_in_xml(a),
        ends_in_xml(b),
    ensures
        input_valid(a, exists) == exists,
        input_valid(b, exists) == exists,
{
}

} // verus!

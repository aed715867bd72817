use vstd::prelude::*;
use vstd::utf8::encode_utf8;

verus! {

broadcast use vstd::utf8::encode_utf8_decode_utf8;

// ---------------------------------------------------------------------------
// Specifications of the string operations the library relies on.
// ---------------------------------------------------------------------------

/// A character of the Unicode `White_Space` property (what `\s` matches).
pub open spec fn is_white_space(c: char) -> bool {
    let u = c as u32;
    ||| 0x09 <= u <= 0x0d
    ||| u == 0x20
    ||| u == 0x85
    ||| u == 0xa0
    ||| u == 0x1680
    ||| 0x2000 <= u <= 0x200a
    ||| u == 0x2028
    ||| u == 0x2029
    ||| u == 0x202f
    ||| u == 0x205f
    ||| u == 0x3000
}

/// `s` with every maximal run of white space replaced by one space.
pub open spec fn collapse_whitespace(s: Seq<char>) -> Seq<char>
    decreases s.len(),
{
    if s.len() == 0 {
        seq![]
    } else {
        let prev = collapse_whitespace(s.drop_last());
        let c = s.last();
        if is_white_space(c) {
            if s.len() >= 2 && is_white_space(s[s.len() - 2]) {
                prev
            } else {
                prev.push(' ')
            }
        } else {
            prev.push(c)
        }
    }
}

/// `s` with every non-ASCII character replaced by a space.
pub open spec fn asciify(s: Seq<char>) -> Seq<char> {
    s.map_values(|c: char| if (c as u32) < 0x80 { c } else { ' ' })
}

/// `s` holds `pat` as a contiguous piece.
pub open spec fn has_infix(s: Seq<char>, pat: Seq<char>) -> bool {
    exists|i: int| 0 <= i && i + pat.len() <= s.len() && #[trigger] s.subrange(i, i + pat.len()) == pat
}

/// The pieces of `s` between the characters of `seps`, as `str::split` with
/// a set of characters gives them (always at least one piece).
pub open spec fn split_by(s: Seq<char>, seps: Seq<char>) -> Seq<Seq<char>>
    decreases s.len(),
{
    if s.len() == 0 {
        seq![seq![]]
    } else {
        let prev = split_by(s.drop_last(), seps);
        let c = s.last();
        if seps.contains(c) {
            prev.push(seq![])
        } else {
            prev.update(prev.len() - 1, prev.last().push(c))
        }
    }
}

/// The pieces of `parts` with `sep` between each two of them.
pub open spec fn join(parts: Seq<Seq<char>>, sep: Seq<char>) -> Seq<char>
    decreases parts.len(),
{
    if parts.len() == 0 {
        seq![]
    } else if parts.len() == 1 {
        parts[0]
    } else {
        join(parts.drop_last(), sep) + sep + parts.last()
    }
}

/// The UTF-8 bytes of `s`, as `str::as_bytes` and byte offsets see them.
pub open spec fn bytes_of(s: Seq<char>) -> Seq<u8> {
    encode_utf8(s)
}

/// `s` with every occurrence of `pat`, found left to right without overlap,
/// removed (`str::replace(pat, "")`).
pub open spec fn remove_occurrences(s: Seq<char>, pat: Seq<char>) -> Seq<char>
    decreases s.len(),
{
    if pat.len() == 0 || s.len() < pat.len() {
        s
    } else if s.take(pat.len() as int) == pat {
        remove_occurrences(s.skip(pat.len() as int), pat)
    } else {
        seq![s[0]] + remove_occurrences(s.skip(1), pat)
    }
}

pub proof fn lemma_split_by_nonempty(s: Seq<char>, seps: Seq<char>)
    ensures
        split_by(s, seps).len() >= 1,
    decreases s.len(),
{
    if s.len() > 0 {
        lemma_split_by_nonempty(s.drop_last(), seps);
    }
}

// ---------------------------------------------------------------------------
// Calls into std and the regex crate.
// ---------------------------------------------------------------------------

/// `String::push`: appends one character.
#[verifier::external_body]
pub(crate) fn push_char(s: &mut String, c: char)
    ensures
        final(s)@ == old(s)@.push(c),
{
    s.push(c)
}

/// `Regex::new(r"\s+")` and `Regex::replace_all` with `" "`: every maximal run of
/// characters that `\s` matches (the Unicode `White_Space` property in the
/// regex crate's default Unicode mode) becomes one space; the pattern is a
/// valid constant, so the `unwrap` never fails.
#[verifier::external_body]
pub(crate) fn replace_whitespace_runs(s: &str) -> (r: String)
    ensures
        r@ == collapse_whitespace(s@),
{
    regex::Regex::new(r"\s+").unwrap().replace_all(s, " ").to_string()
}

// ---------------------------------------------------------------------------
// Verified string functions.
// ---------------------------------------------------------------------------

/// The characters of `s`, in order.
pub fn chars_of(s: &str) -> (r: Vec<char>)
    ensures
        r@ == s@,
{
    let mut r: Vec<char> = Vec::new();
    for c in it: s.chars()
        invariant
            r@ == it.seq().take(it.index() as int),
            it.seq() == s@,
    {
        r.push(c);
    }
    r
}

/// A string made of the characters `cs`.
pub fn string_from_chars(cs: &[char]) -> (r: String)
    ensures
        r@ == cs@,
{
    let mut r = String::new();
    let mut i: usize = 0;
    while i < cs.len()
        invariant
            i <= cs.len(),
            r@ == cs@.take(i as int),
        decreases cs.len() - i,
    {
        push_char(&mut r, cs[i]);
        i = i + 1;
        assert(r@ =~= cs@.take(i as int));
    }
    assert(cs@.take(cs.len() as int) =~= cs@);
    r
}

/// Whether two strings hold the same characters.
pub fn str_eq(a: &str, b: &str) -> (r: bool)
    ensures
        r == (a@ == b@),
{
    let x = a.as_bytes();
    let y = b.as_bytes();
    if x.len() != y.len() {
        assert(a@ != b@) by {
            if a@ == b@ {
                assert(encode_utf8(a@) == encode_utf8(b@));
            }
        }
        return false;
    }
    let mut i: usize = 0;
    while i < x.len()
        invariant
            x.len() == y.len(),
            x@ == encode_utf8(a@),
            y@ == encode_utf8(b@),
            i <= x.len(),
            forall|j: int| 0 <= j < i ==> x@[j] == y@[j],
        decreases x.len() - i,
    {
        if x[i] != y[i] {
            assert(a@ != b@) by {
                if a@ == b@ {
                    assert(encode_utf8(a@) == encode_utf8(b@));
                }
            }
            return false;
        }
        i = i + 1;
    }
    assert(x@ =~= y@);
    proof {
        vstd::utf8::encode_utf8_decode_utf8(a@);
        vstd::utf8::encode_utf8_decode_utf8(b@);
    }
    true
}

/// Whether the bytes `b[start..start + pat.len()]` are those of `pat`.
pub fn bytes_match_at(b: &[u8], start: usize, pat: &[u8]) -> (r: bool)
    requires
        start + pat.len() <= b.len(),
    ensures
        r == (b@.subrange(start as int, start + pat.len()) == pat@),
{
    let mut i: usize = 0;
    while i < pat.len()
        invariant
            start + pat.len() <= b.len(),
            i <= pat.len(),
            forall|j: int| 0 <= j < i ==> b@[start + j] == pat@[j],
        decreases pat.len() - i,
    {
        if b[start + i] != pat[i] {
            assert(b@.subrange(start as int, start + pat.len())[i as int] != pat@[i as int]);
            return false;
        }
        i = i + 1;
    }
    assert(b@.subrange(start as int, start + pat.len()) =~= pat@);
    true
}

/// Whether `pat` occurs in `s`.
pub fn contains_chars(s: &[char], pat: &[char]) -> (r: bool)
    ensures
        r == has_infix(s@, pat@),
{
    if pat.len() > s.len() {
        return false;
    }
    let mut i: usize = 0;
    while i <= s.len() - pat.len()
        invariant
            pat.len() <= s.len(),
            i <= s.len() - pat.len() + 1,
            forall|k: int| 0 <= k < i ==> #[trigger] s@.subrange(k, k + pat.len()) != pat@,
        decreases s.len() - i,
    {
        let mut j: usize = 0;
        let mut same = true;
        while j < pat.len()
            invariant
                i + pat.len() <= s.len(),
                j <= pat.len(),
                same == forall|m: int| 0 <= m < j ==> s@[i + m] == #[trigger] pat@[m],
            decreases pat.len() - j,
        {
            if s[i + j] != pat[j] {
                same = false;
            }
            j = j + 1;
        }
        if same {
            assert(s@.subrange(i as int, i + pat.len()) =~= pat@);
            return true;
        }
        assert(s@.subrange(i as int, i + pat.len()) != pat@) by {
            let m = choose|m: int| 0 <= m < pat.len() && s@[i + m] != pat@[m];
            assert(s@.subrange(i as int, i + pat.len())[m] != pat@[m]);
        }
        i = i + 1;
    }
    assert forall|k: int| 0 <= k && k + pat.len() <= s.len() implies #[trigger] s@.subrange(k, k + pat.len()) != pat@ by {
        assert(k < i);
    }
    false
}

/// Whether `c` is one of `cs`.
pub fn char_in(cs: &[char], c: char) -> (r: bool)
    ensures
        r == cs@.contains(c),
{
    let mut i: usize = 0;
    while i < cs.len()
        invariant
            i <= cs.len(),
            forall|j: int| 0 <= j < i ==> cs@[j] != c,
        decreases cs.len() - i,
    {
        if cs[i] == c {
            assert(cs@[i as int] == c);
            return true;
        }
        i = i + 1;
    }
    false
}

/// The pieces of `s` between the characters of `seps` (`str::split` with a
/// set of characters).
pub fn split_on_any(s: &str, seps: &[char]) -> (r: Vec<String>)
    ensures
        r.deep_view() == split_by(s@, seps@),
        r.len() >= 1,
{
    let cs = chars_of(s);
    let mut done: Vec<String> = Vec::new();
    let mut cur: Vec<char> = Vec::new();
    let mut i: usize = 0;
    assert(cs@.take(0) =~= Seq::<char>::empty());
    assert(done.deep_view().push(cur@) =~= seq![seq![]]);
    while i < cs.len()
        invariant
            cs@ == s@,
            i <= cs.len(),
            done.deep_view().push(cur@) == split_by(cs@.take(i as int), seps@),
        decreases cs.len() - i,
    {
        let c = cs[i];
        let ghost prev = cs@.take(i as int);
        assert(cs@.take(i + 1).drop_last() =~= prev);
        assert(cs@.take(i + 1).last() == c);
        proof {
            lemma_split_by_nonempty(prev, seps@);
        }
        if char_in(seps, c) {
            let piece = string_from_chars(cur.as_slice());
            let ghost before = done.deep_view();
            done.push(piece);
            assert(done.deep_view() =~= before.push(piece@));
            cur = Vec::new();
            assert(done.deep_view().push(cur@) =~= split_by(prev, seps@).push(seq![]));
        } else {
            let ghost before = cur@;
            cur.push(c);
            assert(done.deep_view().push(cur@) =~= split_by(prev, seps@).update(
                split_by(prev, seps@).len() - 1,
                split_by(prev, seps@).last().push(c),
            ));
        }
        i = i + 1;
    }
    assert(cs@.take(cs.len() as int) =~= cs@);
    let piece = string_from_chars(cur.as_slice());
    let ghost before = done.deep_view();
    done.push(piece);
    assert(done.deep_view() =~= before.push(piece@));
    done
}

/// The strings `parts` with `sep` between each two of them (`[..].join(sep)`).
pub fn join_with(parts: &[String], sep: &str) -> (r: String)
    ensures
        r@ == join(parts@.map_values(|p: String| p@), sep@),
{
    let ghost views = parts@.map_values(|p: String| p@);
    let mut r = String::new();
    let mut i: usize = 0;
    assert(views.take(0) =~= Seq::<Seq<char>>::empty());
    while i < parts.len()
        invariant
            i <= parts.len(),
            views == parts@.map_values(|p: String| p@),
            r@ == join(views.take(i as int), sep@),
        decreases parts.len() - i,
    {
        assert(views.take(i + 1).drop_last() =~= views.take(i as int));
        if i > 0 {
            r.append(sep);
        }
        r.append(parts[i].as_str());
        i = i + 1;
        assert(r@ =~= join(views.take(i as int), sep@));
    }
    assert(views.take(parts.len() as int) =~= views);
    r
}

/// `s` with each non-ASCII character replaced by a space.
pub fn replace_non_ascii(s: &str) -> (r: String)
    ensures
        r@ == asciify(s@),
{
    let mut r = String::new();
    for c in it: s.chars()
        invariant
            it.seq() == s@,
            r@ == asciify(s@).take(it.index() as int),
    {
        let ghost k = it.index();
        let d = if (c as u32) < 0x80 { c } else { ' ' };
        push_char(&mut r, d);
        assert(r@ =~= asciify(s@).take(k + 1));
    }
    assert(asciify(s@).take(s@.len() as int) =~= asciify(s@));
    r
}

/// `s` with every occurrence of `pat` removed, left to right.
pub fn remove_all(s: &str, pat: &str) -> (r: String)
    ensures
        r@ == remove_occurrences(s@, pat@),
{
    let cs = chars_of(s);
    let ps = chars_of(pat);
    let n = cs.len();
    let m = ps.len();
    let mut out: Vec<char> = Vec::new();
    let mut i: usize = 0;
    assert(cs@.skip(0) =~= cs@);
    while i < n
        invariant
            n == cs@.len(),
            m == ps@.len(),
            cs@ == s@,
            ps@ == pat@,
            i <= n,
            out@ + remove_occurrences(cs@.skip(i as int), ps@) == remove_occurrences(cs@, ps@),
        decreases n - i,
    {
        let ghost rest = cs@.skip(i as int);
        if m > 0 && n - i >= m && chars_match_at(&cs, i, &ps) {
            assert(rest.take(m as int) =~= cs@.subrange(i as int, i + m));
            assert(rest.skip(m as int) =~= cs@.skip(i + m));
            i = i + m;
        } else {
            if m > 0 && n - i >= m {
                assert(rest.take(m as int) =~= cs@.subrange(i as int, i + m));
            }
            assert(rest.skip(1) =~= cs@.skip(i + 1));
            assert(rest[0] == cs@[i as int]);
            proof {
                if m == 0 || rest.len() < m {
                    assert(remove_occurrences(rest, ps@) == rest);
                    assert(rest =~= seq![cs@[i as int]] + cs@.skip(i + 1));
                    assert(remove_occurrences(cs@.skip(i + 1), ps@) == cs@.skip(i + 1));
                }
            }
            let ghost before = out@;
            out.push(cs[i]);
            assert(out@ + remove_occurrences(cs@.skip(i + 1), ps@) =~= before + (seq![cs@[i as int]]
                + remove_occurrences(cs@.skip(i + 1), ps@)));
            i = i + 1;
        }
    }
    assert(cs@.skip(n as int) =~= Seq::<char>::empty());
    assert(out@ + Seq::<char>::empty() =~= out@);
    string_from_chars(out.as_slice())
}

/// Whether `pat` stands in `s` at `start`.
fn chars_match_at(s: &Vec<char>, start: usize, pat: &Vec<char>) -> (r: bool)
    requires
        start + pat.len() <= s.len(),
    ensures
        r == (s@.subrange(start as int, start + pat.len()) == pat@),
{
    let mut j: usize = 0;
    while j < pat.len()
        invariant
            start + pat.len() <= s.len(),
            j <= pat.len(),
            forall|k: int| 0 <= k < j ==> s@[start + k] == pat@[k],
        decreases pat.len() - j,
    {
        if s[start + j] != pat[j] {
            assert(s@.subrange(start as int, start + pat.len())[j as int] != pat@[j as int]);
            return false;
        }
        j = j + 1;
    }
    assert(s@.subrange(start as int, start + pat.len()) =~= pat@);
    true
}

// ---------------------------------------------------------------------------
// Laws.
// ---------------------------------------------------------------------------

/// No two neighbouring characters of `s` are both white space.
pub open spec fn no_adjacent_white_space(s: Seq<char>) -> bool {
    forall|i: int| 0 <= i < s.len() - 1 ==> !(is_white_space(#[trigger] s[i]) && is_white_space(s[i + 1]))
}

/// The only white space in `s` is the plain space.
pub open spec fn only_plain_spaces(s: Seq<char>) -> bool {
    forall|i: int| 0 <= i < s.len() && is_white_space(#[trigger] s[i]) ==> s[i] == ' '
}

proof fn lemma_collapse_shape(s: Seq<char>)
    ensures
        collapse_whitespace(s).len() <= s.len(),
        (collapse_whitespace(s).len() == 0) == (s.len() == 0),
        s.len() > 0 ==> (is_white_space(s.last()) == is_white_space(collapse_whitespace(s).last())),
        no_adjacent_white_space(collapse_whitespace(s)),
        only_plain_spaces(collapse_whitespace(s)),
    decreases s.len(),
{
    if s.len() > 0 {
        let prev = s.drop_last();
        lemma_collapse_shape(prev);
        let p = collapse_whitespace(prev);
        let r = collapse_whitespace(s);
        let c = s.last();
        if is_white_space(c) && s.len() >= 2 && is_white_space(s[s.len() - 2]) {
            assert(prev.last() == s[s.len() - 2]);
            assert(r == p);
        } else {
            let d = if is_white_space(c) { ' ' } else { c };
            assert(r == p.push(d));
            if s.len() >= 2 {
                assert(prev.last() == s[s.len() - 2]);
            }
            assert forall|i: int| 0 <= i < r.len() - 1 implies !(is_white_space(#[trigger] r[i]) && is_white_space(r[i + 1])) by {
                if i < r.len() - 2 {
                    assert(r[i] == p[i] && r[i + 1] == p[i + 1]);
                } else {
                    assert(r[i] == p.last());
                }
            }
            assert forall|i: int| 0 <= i < r.len() && is_white_space(#[trigger] r[i]) implies r[i] == ' ' by {
                if i < r.len() - 1 {
                    assert(r[i] == p[i]);
                }
            }
        }
    }
}

/// A text in which every run of white space is already one plain space is
/// left as it is by collapsing.
pub proof fn lemma_collapse_keeps_tidy_text(t: Seq<char>)
    requires
        no_adjacent_white_space(t),
        only_plain_spaces(t),
    ensures
        collapse_whitespace(t) == t,
    decreases t.len(),
{
    if t.len() > 0 {
        let prev = t.drop_last();
        assert(no_adjacent_white_space(prev)) by {
            assert forall|i: int| 0 <= i < prev.len() - 1 implies !(is_white_space(#[trigger] prev[i]) && is_white_space(prev[i + 1])) by {
                assert(prev[i] == t[i] && prev[i + 1] == t[i + 1]);
            }
        }
        assert(only_plain_spaces(prev)) by {
            assert forall|i: int| 0 <= i < prev.len() && is_white_space(#[trigger] prev[i]) implies prev[i] == ' ' by {
                assert(prev[i] == t[i]);
            }
        }
        lemma_collapse_keeps_tidy_text(prev);
        let c = t.last();
        if t.len() >= 2 {
            assert(t[t.len() - 2] == t[(t.len() - 1) - 1]);
        }
        if is_white_space(c) {
            assert(c == t[t.len() - 1]);
        }
        assert(prev.push(c) =~= t);
    }
}

/// Collapsing white space leaves no two neighbouring white-space characters
/// and no white space but plain spaces, and collapsing again changes nothing.
pub proof fn lemma_collapse_whitespace_laws(s: Seq<char>)
    ensures
        no_adjacent_white_space(collapse_whitespace(s)),
        only_plain_spaces(collapse_whitespace(s)),
        collapse_whitespace(collapse_whitespace(s)) == collapse_whitespace(s),
        collapse_whitespace(s).len() <= s.len(),
{
    lemma_collapse_shape(s);
    lemma_collapse_keeps_tidy_text(collapse_whitespace(s));
}

/// No piece that splitting gives holds one of the separators.
pub proof fn lemma_split_pieces_hold_no_separator(s: Seq<char>, seps: Seq<char>)
    ensures
        forall|k: int, i: int|
            0 <= k < split_by(s, seps).len() && 0 <= i < split_by(s, seps)[k].len() ==> !seps.contains(
                #[trigger] split_by(s, seps)[k][i],
            ),
    decreases s.len(),
{
    if s.len() > 0 {
        let prev = s.drop_last();
        lemma_split_pieces_hold_no_separator(prev, seps);
        lemma_split_by_nonempty(prev, seps);
        let p = split_by(prev, seps);
        let r = split_by(s, seps);
        let c = s.last();
        assert forall|k: int, i: int| 0 <= k < r.len() && 0 <= i < r[k].len() implies !seps.contains(#[trigger] r[k][i]) by {
            if seps.contains(c) {
                if k < p.len() {
                    assert(r[k] == p[k]);
                }
            } else {
                if k < p.len() - 1 {
                    assert(r[k] == p[k]);
                } else {
                    assert(r[k] == p.last().push(c));
                    if i < p.last().len() {
                        assert(r[k][i] == p[p.len() - 1][i]);
                    }
                }
            }
        }
    }
}

/// Splitting at one character and joining the pieces with it gives back the
/// text.
pub proof fn lemma_join_split(s: Seq<char>, c: char)
    ensures
        join(split_by(s, seq![c]), seq![c]) == s,
    decreases s.len(),
{
    if s.len() > 0 {
        let prev = s.drop_last();
        lemma_join_split(prev, c);
        lemma_split_by_nonempty(prev, seq![c]);
        let p = split_by(prev, seq![c]);
        let d = s.last();
        if d == c {
            assert(seq![c].contains(d)) by {
                assert(seq![c][0] == d);
            }
            assert(split_by(s, seq![c]) == p.push(seq![]));
            assert(p.push(seq![]).drop_last() =~= p);
            assert(join(p.push(seq![]), seq![c]) =~= s);
        } else {
            assert(!seq![c].contains(d));
            let q = p.update(p.len() - 1, p.last().push(d));
            assert(split_by(s, seq![c]) == q);
            if p.len() == 1 {
                assert(join(q, seq![c]) == q[0]);
                assert(join(p, seq![c]) == p[0]);
                assert(q[0] =~= prev.push(d));
                assert(prev.push(d) =~= s);
            } else {
                assert(q.drop_last() =~= p.drop_last());
                assert(join(q, seq![c]) == join(p.drop_last(), seq![c]) + seq![c] + p.last().push(d));
                assert(join(p, seq![c]) == join(p.drop_last(), seq![c]) + seq![c] + p.last());
                assert(join(q, seq![c]) =~= join(p, seq![c]).push(d));
                assert(prev.push(d) =~= s);
            }
        }
    }
}

/// Every character of `s` is ASCII.
pub open spec fn all_ascii(s: Seq<char>) -> bool {
    forall|i: int| 0 <= i < s.len() ==> (#[trigger] s[i] as u32) < 0x80
}

/// Collapsing white space brings in no character but the plain space.
pub proof fn lemma_collapse_keeps_ascii(s: Seq<char>)
    requires
        all_ascii(s),
    ensures
        all_ascii(collapse_whitespace(s)),
    decreases s.len(),
{
    if s.len() > 0 {
        let prev = s.drop_last();
        assert(all_ascii(prev)) by {
            assert forall|i: int| 0 <= i < prev.len() implies (#[trigger] prev[i] as u32) < 0x80 by {
                assert(prev[i] == s[i]);
            }
        }
        lemma_collapse_keeps_ascii(prev);
        let p = collapse_whitespace(prev);
        let r = collapse_whitespace(s);
        assert(s.last() == s[s.len() - 1]);
        assert forall|i: int| 0 <= i < r.len() implies (#[trigger] r[i] as u32) < 0x80 by {
            if i < p.len() {
                assert(r[i] == p[i]);
            }
        }
    }
}

/// Replacing non-ASCII characters leaves only ASCII.
pub proof fn lemma_asciify_is_ascii(s: Seq<char>)
    ensures
        all_ascii(asciify(s)),
        asciify(s).len() == s.len(),
{
}

/// The number of white-space characters at the end of `s`.
pub open spec fn trailing_white_space(s: Seq<char>) -> nat
    decreases s.len(),
{
    if s.len() > 0 && is_white_space(s.last()) {
        1 + trailing_white_space(s.drop_last())
    } else {
        0
    }
}

pub proof fn lemma_trailing_white_space_bound(s: Seq<char>)
    ensures
        trailing_white_space(s) <= s.len(),
    decreases s.len(),
{
    if s.len() > 0 {
        lemma_trailing_white_space_bound(s.drop_last());
    }
}

/// `s` without the run of white space at its end.
pub open spec fn without_trailing_white_space(s: Seq<char>) -> Seq<char> {
    s.take(s.len() - trailing_white_space(s))
}

/// `b` is `a` with some of its maximal runs of white space replaced by other
/// non-empty runs of white space (read from the end: both end in a run, and
/// agree before it; or both end in the same other character, and agree
/// before it).
pub open spec fn same_but_white_space_runs(a: Seq<char>, b: Seq<char>) -> bool
    decreases a.len() + b.len(),
{
    if a.len() == 0 || b.len() == 0 {
        a.len() == 0 && b.len() == 0
    } else if is_white_space(a.last()) && is_white_space(b.last()) {
        proof {
            lemma_trailing_white_space_bound(a);
            lemma_trailing_white_space_bound(b);
        }
        same_but_white_space_runs(without_trailing_white_space(a), without_trailing_white_space(b))
    } else {
        &&& a.last() == b.last()
        &&& same_but_white_space_runs(a.drop_last(), b.drop_last())
    }
}

proof fn lemma_collapse_trailing_run(s: Seq<char>)
    requires
        trailing_white_space(s) > 0,
    ensures
        collapse_whitespace(s) == collapse_whitespace(without_trailing_white_space(s)).push(' '),
    decreases s.len(),
{
    let p = s.drop_last();
    lemma_trailing_white_space_bound(p);
    assert(without_trailing_white_space(s) =~= p.take(p.len() - trailing_white_space(p)));
    if trailing_white_space(p) > 0 {
        lemma_collapse_trailing_run(p);
        assert(p.last() == s[s.len() - 2]);
    } else {
        assert(p.take(p.len() as int) =~= p);
        if s.len() >= 2 {
            assert(p.last() == s[s.len() - 2]);
        }
    }
}

/// Replacing runs of white space by other non-empty runs does not change the
/// collapsed text.
pub proof fn lemma_collapse_ignores_white_space_runs(a: Seq<char>, b: Seq<char>)
    requires
        same_but_white_space_runs(a, b),
    ensures
        collapse_whitespace(a) == collapse_whitespace(b),
    decreases a.len() + b.len(),
{
    if a.len() > 0 && b.len() > 0 {
        lemma_trailing_white_space_bound(a);
        lemma_trailing_white_space_bound(b);
        if is_white_space(a.last()) && is_white_space(b.last()) {
            lemma_collapse_ignores_white_space_runs(
                without_trailing_white_space(a),
                without_trailing_white_space(b),
            );
            lemma_collapse_trailing_run(a);
            lemma_collapse_trailing_run(b);
        } else {
            lemma_collapse_ignores_white_space_runs(a.drop_last(), b.drop_last());
        }
    }
}

} // verus!

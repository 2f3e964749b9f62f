//! Character-level string helpers: trimming, case folding, identifier
//! normalization, searching and ordering.
use vstd::prelude::*;

verus! {

/// `String::push` appends one character at the end of the string.
pub assume_specification[ String::push ](string: &mut String, ch: char)
    ensures
        final(string)@ == old(string)@.push(ch),
;

// ---------------------------------------------------------------------------
// Conversions between strings and character vectors
// ---------------------------------------------------------------------------

/// The characters of a string slice, in order.
pub fn chars_of(s: &str) -> (out: Vec<char>)
    ensures
        out@ == s@,
{
    let mut out: Vec<char> = Vec::new();
    for c in it: s.chars()
        invariant
            it.seq() == s@,
            out@ == it.seq().take(it.index() as int),
    {
        out.push(c);
    }
    out
}

/// A string holding the given characters, in order.
pub fn string_of(chars: &[char]) -> (out: String)
    ensures
        out@ == chars@,
{
    let mut out = String::new();
    let mut i: usize = 0;
    while i < chars.len()
        invariant
            i <= chars.len(),
            out@ == chars@.take(i as int),
        decreases chars.len() - i,
    {
        out.push(chars[i]);
        i = i + 1;
        proof {
            assert(chars@.take(i as int) == chars@.take(i - 1).push(chars@[i - 1]));
        }
    }
    proof {
        assert(chars@.take(chars@.len() as int) == chars@);
    }
    out
}

/// The characters of each string, in order.
pub open spec fn str_views(v: Seq<String>) -> Seq<Seq<char>> {
    v.map_values(|s: String| s@)
}

/// What a sequence with one more element contains.
pub proof fn lemma_push_contains<T>(s: Seq<T>, x: T, c: T)
    ensures
        s.push(x).contains(c) <==> (s.contains(c) || x == c),
{
    if s.contains(c) {
        let k = choose|k: int| 0 <= k < s.len() && s[k] == c;
        assert(s.push(x)[k] == c);
    }
    if x == c {
        assert(s.push(x)[s.len() as int] == c);
    }
    if s.push(x).contains(c) && x != c {
        let k = choose|k: int| 0 <= k < s.push(x).len() && s.push(x)[k] == c;
        assert(s[k] == c);
    }
}

/// Pushing the view of the next element of `target` extends the prefix.
pub proof fn lemma_views_push_take(
    before: Seq<String>,
    after: Seq<String>,
    target: Seq<Seq<char>>,
    i: int,
)
    requires
        0 <= i < target.len(),
        str_views(before) == target.take(i),
        after == before.push(after.last()),
        after.last()@ == target[i],
    ensures
        str_views(after) == target.take(i + 1),
{
    assert(str_views(before).len() == i);
    assert forall|k: int| 0 <= k < i + 1 implies #[trigger] str_views(after)[k] == target.take(
        i + 1,
    )[k] by {
        if k < i {
            assert(str_views(before)[k] == target.take(i)[k]);
            assert(after[k] == before[k]);
        }
    }
    assert(str_views(after) =~= target.take(i + 1));
}

/// A fresh string with the same characters as a string slice.
pub fn owned(s: &str) -> (out: String)
    ensures
        out@ == s@,
{
    let v = chars_of(s);
    string_of(v.as_slice())
}

/// Appends the characters of `tail` to `out`.
pub fn push_str(out: &mut String, tail: &str)
    ensures
        final(out)@ == old(out)@ + tail@,
{
    let v = chars_of(tail);
    let mut i: usize = 0;
    while i < v.len()
        invariant
            i <= v.len(),
            v@ == tail@,
            out@ == old(out)@ + v@.take(i as int),
        decreases v.len() - i,
    {
        out.push(v[i]);
        i = i + 1;
        proof {
            assert(v@.take(i as int) == v@.take(i - 1).push(v@[i - 1]));
        }
    }
    proof {
        assert(v@.take(v@.len() as int) == v@);
    }
}

/// Whether two string slices hold the same characters.
pub fn str_eq(a: &str, b: &str) -> (r: bool)
    ensures
        r == (a@ == b@),
{
    let x = chars_of(a);
    let y = chars_of(b);
    chars_eq(x.as_slice(), y.as_slice())
}

/// Whether two character slices are equal.
pub fn chars_eq(x: &[char], y: &[char]) -> (r: bool)
    ensures
        r == (x@ == y@),
{
    if x.len() != y.len() {
        return false;
    }
    let mut i: usize = 0;
    while i < x.len()
        invariant
            i <= x.len(),
            x.len() == y.len(),
            x@.take(i as int) == y@.take(i as int),
        decreases x.len() - i,
    {
        if x[i] != y[i] {
            assert(x@[i as int] != y@[i as int]);
            return false;
        }
        i = i + 1;
        proof {
            assert(x@.take(i as int) == x@.take(i - 1).push(x@[i - 1]));
            assert(y@.take(i as int) == y@.take(i - 1).push(y@[i - 1]));
        }
    }
    proof {
        assert(x@.take(x@.len() as int) == x@);
        assert(y@.take(y@.len() as int) == y@);
    }
    true
}

// ---------------------------------------------------------------------------
// Character classes
// ---------------------------------------------------------------------------

/// ASCII letters and digits.
pub open spec fn is_ascii_alnum(c: char) -> bool {
    ('0' <= c && c <= '9') || ('a' <= c && c <= 'z') || ('A' <= c && c <= 'Z')
}

/// Characters with the Unicode `White_Space` property.
pub open spec fn is_unicode_whitespace(c: char) -> bool {
    ||| ('\u{9}' <= c && c <= '\u{d}')
    ||| c == ' '
    ||| c == '\u{85}'
    ||| c == '\u{a0}'
    ||| c == '\u{1680}'
    ||| ('\u{2000}' <= c && c <= '\u{200a}')
    ||| c == '\u{2028}'
    ||| c == '\u{2029}'
    ||| c == '\u{202f}'
    ||| c == '\u{205f}'
    ||| c == '\u{3000}'
}

pub fn ascii_alnum(c: char) -> (r: bool)
    ensures
        r == is_ascii_alnum(c),
{
    ('0' <= c && c <= '9') || ('a' <= c && c <= 'z') || ('A' <= c && c <= 'Z')
}

pub fn unicode_whitespace(c: char) -> (r: bool)
    ensures
        r == is_unicode_whitespace(c),
{
    ('\u{9}' <= c && c <= '\u{d}') || c == ' ' || c == '\u{85}' || c == '\u{a0}' || c
        == '\u{1680}' || ('\u{2000}' <= c && c <= '\u{200a}') || c == '\u{2028}' || c
        == '\u{2029}' || c == '\u{202f}' || c == '\u{205f}' || c == '\u{3000}'
}

// ---------------------------------------------------------------------------
// Trimming
// ---------------------------------------------------------------------------

/// `s` without its leading characters that satisfy `p`.
pub open spec fn trim_start_by(s: Seq<char>, p: spec_fn(char) -> bool) -> Seq<char>
    decreases s.len(),
{
    if s.len() > 0 && p(s[0]) {
        trim_start_by(s.drop_first(), p)
    } else {
        s
    }
}

/// `s` without its trailing characters that satisfy `p`.
pub open spec fn trim_end_by(s: Seq<char>, p: spec_fn(char) -> bool) -> Seq<char>
    decreases s.len(),
{
    if s.len() > 0 && p(s.last()) {
        trim_end_by(s.drop_last(), p)
    } else {
        s
    }
}

pub open spec fn ws() -> spec_fn(char) -> bool {
    |c: char| is_unicode_whitespace(c)
}

/// `s` without leading and trailing white space, as `str::trim` gives it.
pub open spec fn trim_seq(s: Seq<char>) -> Seq<char> {
    trim_end_by(trim_start_by(s, ws()), ws())
}

proof fn lemma_trim_start_skip(s: Seq<char>, p: spec_fn(char) -> bool, i: int)
    requires
        0 <= i <= s.len(),
        forall|k: int| 0 <= k < i ==> p(#[trigger] s[k]),
    ensures
        trim_start_by(s, p) == trim_start_by(s.skip(i), p),
    decreases i,
{
    if i > 0 {
        assert(s.skip(i) == s.drop_first().skip(i - 1));
        assert forall|k: int| 0 <= k < i - 1 implies p(#[trigger] s.drop_first()[k]) by {
            assert(s.drop_first()[k] == s[k + 1]);
        }
        lemma_trim_start_skip(s.drop_first(), p, i - 1);
    } else {
        assert(s.skip(0) == s);
    }
}

proof fn lemma_trim_end_take(s: Seq<char>, p: spec_fn(char) -> bool, j: int)
    requires
        0 <= j <= s.len(),
        forall|k: int| j <= k < s.len() ==> p(#[trigger] s[k]),
    ensures
        trim_end_by(s, p) == trim_end_by(s.take(j), p),
    decreases s.len() - j,
{
    if j < s.len() {
        assert(s.drop_last().take(j) == s.take(j));
        lemma_trim_end_take(s.drop_last(), p, j);
    } else {
        assert(s.take(j) == s);
    }
}

/// Leading and trailing characters matching `p` removed.
pub fn trim_chars_by_ws(v: &Vec<char>) -> (out: Vec<char>)
    ensures
        out@ == trim_seq(v@),
{
    let n = v.len();
    let mut i: usize = 0;
    while i < n && unicode_whitespace(v[i])
        invariant
            i <= n,
            n == v@.len(),
            forall|k: int| 0 <= k < i ==> is_unicode_whitespace(#[trigger] v@[k]),
        decreases n - i,
    {
        i = i + 1;
    }
    proof {
        lemma_trim_start_skip(v@, ws(), i as int);
        if i < n {
            assert(!is_unicode_whitespace(v@.skip(i as int)[0]));
        }
        assert(trim_start_by(v@.skip(i as int), ws()) == v@.skip(i as int));
    }
    let mut j: usize = n;
    while j > i && unicode_whitespace(v[j - 1])
        invariant
            i <= j <= n,
            n == v@.len(),
            forall|k: int| j <= k < n ==> is_unicode_whitespace(#[trigger] v@[k]),
        decreases j,
    {
        j = j - 1;
    }
    let ghost rest = v@.skip(i as int);
    proof {
        assert forall|k: int| (j - i) <= k < rest.len() implies is_unicode_whitespace(
            #[trigger] rest[k],
        ) by {
            assert(rest[k] == v@[k + i]);
        }
        lemma_trim_end_take(rest, ws(), (j - i) as int);
        if j > i {
            assert(rest.take((j - i) as int).last() == v@[j - 1]);
        }
    }
    let mut out: Vec<char> = Vec::new();
    let mut k: usize = i;
    while k < j
        invariant
            i <= k <= j <= n,
            n == v@.len(),
            out@ == v@.subrange(i as int, k as int),
        decreases j - k,
    {
        out.push(v[k]);
        k = k + 1;
        proof {
            assert(v@.subrange(i as int, k as int) == v@.subrange(i as int, k - 1).push(
                v@[k - 1],
            ));
        }
    }
    proof {
        assert(out@ == rest.take((j - i) as int));
    }
    out
}

/// `s` with leading and trailing white space removed (`str::trim`).
pub fn trim(s: &str) -> (out: String)
    ensures
        out@ == trim_seq(s@),
{
    let v = chars_of(s);
    let t = trim_chars_by_ws(&v);
    string_of(t.as_slice())
}

// ---------------------------------------------------------------------------
// Case folding (std)
// ---------------------------------------------------------------------------

/// What `str::to_lowercase` returns for a string with the given characters.
pub uninterp spec fn spec_lowercase(s: Seq<char>) -> Seq<char>;

/// The ASCII capital letters `A` to `Z`.
pub open spec fn is_ascii_upper(c: char) -> bool {
    'A' <= c && c <= 'Z'
}

/// `c` with an ASCII capital letter replaced by its small letter.
pub open spec fn ascii_lower_char(c: char) -> char {
    if is_ascii_upper(c) {
        ((c as u32) + 32) as char
    } else {
        c
    }
}

/// `s` with its ASCII capital letters replaced by small letters.
pub open spec fn ascii_lowercased(s: Seq<char>) -> Seq<char> {
    s.map_values(|c: char| ascii_lower_char(c))
}

/// Every character is ASCII.
pub open spec fn is_ascii_text(s: Seq<char>) -> bool {
    forall|k: int| 0 <= k < s.len() ==> (#[trigger] s[k] as u32) < 128
}

/// No character is an ASCII capital letter.
pub open spec fn has_no_capital(s: Seq<char>) -> bool {
    forall|k: int| 0 <= k < s.len() ==> !is_ascii_upper(#[trigger] s[k])
}

/// Calls `str::to_lowercase`, which gives the Unicode lowercase form of the
/// text. Its result is named; of it, the contract states what the Unicode
/// lowercase mapping plainly gives: ASCII text comes back with its capital
/// letters made small and every other character as it is, and no result
/// holds an ASCII capital letter. What it gives for other characters is left
/// unsaid.
#[verifier::external_body]
pub(crate) fn lowercase(s: &str) -> (out: String)
    ensures
        out@ == spec_lowercase(s@),
        is_ascii_text(s@) ==> out@ == ascii_lowercased(s@),
        has_no_capital(out@),
{
    s.to_lowercase()
}

/// The lower-cased text that identifier normalization works on: for ASCII
/// text its ASCII lowercasing; otherwise what `str::to_lowercase` gives,
/// which holds no ASCII capital, so that making its capitals small again
/// leaves it as it is.
pub open spec fn lowercased(s: Seq<char>) -> Seq<char> {
    if is_ascii_text(s) {
        ascii_lowercased(s)
    } else {
        ascii_lowercased(spec_lowercase(s))
    }
}

proof fn lemma_ascii_lowercased_identity(s: Seq<char>)
    requires
        has_no_capital(s),
    ensures
        ascii_lowercased(s) == s,
{
    assert(ascii_lowercased(s) =~= s);
}

proof fn lemma_ascii_lowercased_no_capital(s: Seq<char>)
    ensures
        has_no_capital(ascii_lowercased(s)),
{
    let t = ascii_lowercased(s);
    assert forall|k: int| 0 <= k < t.len() implies !is_ascii_upper(#[trigger] t[k]) by {
        assert(t[k] == ascii_lower_char(s[k]));
    }
}

/// The result of a call of `lowercase` is the text `lowercased` describes.
proof fn lemma_lowercase_result(s: Seq<char>, out: Seq<char>)
    requires
        out == spec_lowercase(s),
        is_ascii_text(s) ==> out == ascii_lowercased(s),
        has_no_capital(out),
    ensures
        out == lowercased(s),
{
    if !is_ascii_text(s) {
        lemma_ascii_lowercased_identity(out);
    }
}

// ---------------------------------------------------------------------------
// Splitting, joining, identifier normalization
// ---------------------------------------------------------------------------

/// The maximal non-empty runs of `s` that do not contain `sep`, in order:
/// what `s.split(sep).filter(|p| !p.is_empty())` yields.
pub open spec fn segments(s: Seq<char>, sep: char) -> Seq<Seq<char>>
    decreases s.len(),
{
    if s.len() == 0 {
        seq![]
    } else {
        let p = segments(s.drop_last(), sep);
        let c = s.last();
        if c == sep {
            p
        } else if s.len() >= 2 && s[s.len() - 2] != sep && p.len() > 0 {
            p.update(p.len() - 1, p.last().push(c))
        } else {
            p.push(seq![c])
        }
    }
}

/// `parts` joined with `sep` between consecutive parts.
pub open spec fn join(parts: Seq<Seq<char>>, sep: Seq<char>) -> Seq<char>
    decreases parts.len(),
{
    if parts.len() == 0 {
        seq![]
    } else if parts.len() == 1 {
        parts[0]
    } else {
        join(parts.drop_last(), sep) + sep + parts.last()
    }
}

/// The character that identifier normalization keeps in place of `c`.
pub open spec fn ident_char(c: char) -> char {
    if is_ascii_alnum(c) || c == '_' {
        c
    } else {
        '_'
    }
}

/// Characters other than ASCII letters, digits and `_` become `_`; the
/// `_`-separated non-empty runs are then joined by single `_`s.
pub open spec fn collapse_identifier(s: Seq<char>) -> Seq<char> {
    join(segments(s.map_values(|c: char| ident_char(c)), '_'), seq!['_'])
}

/// An identifier as the tool normalizes it: trimmed, lower-cased, then
/// collapsed to ASCII letters, digits and single inner underscores.
pub open spec fn normalized_identifier(s: Seq<char>) -> Seq<char> {
    collapse_identifier(lowercased(trim_seq(s)))
}

proof fn lemma_segments_nonempty(s: Seq<char>, sep: char)
    requires
        s.len() > 0,
        s.last() != sep,
    ensures
        segments(s, sep).len() > 0,
    decreases s.len(),
{
}

proof fn lemma_join_push(p: Seq<Seq<char>>, x: Seq<char>, sep: Seq<char>)
    ensures
        join(p.push(x), sep) == if p.len() == 0 {
            x
        } else {
            join(p, sep) + sep + x
        },
{
    assert(p.push(x).drop_last() == p);
}

proof fn lemma_join_extend_last(p: Seq<Seq<char>>, c: char, sep: Seq<char>)
    requires
        p.len() > 0,
    ensures
        join(p.update(p.len() - 1, p.last().push(c)), sep) == join(p, sep).push(c),
{
    let q = p.update(p.len() - 1, p.last().push(c));
    if p.len() >= 2 {
        assert(q.drop_last() == p.drop_last());
        assert(join(q, sep) == join(p.drop_last(), sep) + sep + p.last().push(c));
    }
}

/// Collapses an already lower-cased text into an identifier.
pub fn collapse_identifier_str(lowered: &str) -> (out: String)
    ensures
        out@ == collapse_identifier(lowered@),
{
    let src = chars_of(lowered);
    let ghost m = lowered@.map_values(|c: char| ident_char(c));
    let mut out: Vec<char> = Vec::new();
    let mut at_boundary = true;
    let mut i: usize = 0;
    while i < src.len()
        invariant
            i <= src.len(),
            src@ == lowered@,
            m == lowered@.map_values(|c: char| ident_char(c)),
            out@ == join(segments(m.take(i as int), '_'), seq!['_']),
            at_boundary == (i == 0 || m[i - 1] == '_'),
            (segments(m.take(i as int), '_').len() == 0) == (out@.len() == 0),
        decreases src.len() - i,
    {
        let raw = src[i];
        let c = if ascii_alnum(raw) || raw == '_' {
            raw
        } else {
            '_'
        };
        let ghost pre = m.take(i as int);
        let ghost next = m.take(i + 1);
        proof {
            assert(c == m[i as int]);
            assert(next.drop_last() == pre);
            assert(next.last() == c);
        }
        if c == '_' {
            at_boundary = true;
        } else {
            if at_boundary {
                proof {
                    let p = segments(pre, '_');
                    assert(segments(next, '_') == p.push(seq![c]));
                    lemma_join_push(p, seq![c], seq!['_']);
                }
                if out.len() > 0 {
                    out.push('_');
                }
                out.push(c);
                proof {
                    let p = segments(pre, '_');
                    if p.len() == 0 {
                        assert(out@ == seq![c]);
                    } else {
                        assert(out@ == join(p, seq!['_']) + seq!['_'] + seq![c]);
                    }
                }
            } else {
                proof {
                    assert(pre.last() == m[i - 1]);
                    lemma_segments_nonempty(pre, '_');
                    let p = segments(pre, '_');
                    assert(next[next.len() - 2] == m[i - 1]);
                    assert(segments(next, '_') == p.update(p.len() - 1, p.last().push(c)));
                    lemma_join_extend_last(p, c, seq!['_']);
                }
                out.push(c);
            }
            at_boundary = false;
        }
        i = i + 1;
    }
    proof {
        assert(m.take(src@.len() as int) == m);
    }
    string_of(out.as_slice())
}

/// Normalizes a user-supplied identifier (schema, collection, attribute or
/// index key): trim, lower-case, then collapse. The result is empty exactly
/// when the trimmed, lower-cased text holds no ASCII letter or digit.
pub fn normalize_identifier(value: &str) -> (out: String)
    ensures
        out@ == normalized_identifier(value@),
        out@.len() == 0 <==> forall|k: int|
            0 <= k < spec_lowercase(trim_seq(value@)).len() ==> !is_ascii_alnum(
                #[trigger] spec_lowercase(trim_seq(value@))[k],
            ),
{
    let trimmed = trim(value);
    let lowered = lowercase(trimmed.as_str());
    proof {
        lemma_lowercase_result(trimmed@, lowered@);
        law_collapse_identifier_empty(lowered@);
    }
    collapse_identifier_str(lowered.as_str())
}



// ---------------------------------------------------------------------------
// Prefixes, searching and splitting
// ---------------------------------------------------------------------------

/// Matches exactly the character `ch`.
pub open spec fn is_char(ch: char) -> spec_fn(char) -> bool {
    |c: char| c == ch
}

/// `s` without its leading `ch` characters (`str::trim_start_matches`).
pub fn trim_start_char(s: &str, ch: char) -> (out: String)
    ensures
        out@ == trim_start_by(s@, is_char(ch)),
{
    let v = chars_of(s);
    let n = v.len();
    let mut i: usize = 0;
    while i < n && v[i] == ch
        invariant
            i <= n,
            n == v@.len(),
            forall|k: int| 0 <= k < i ==> #[trigger] v@[k] == ch,
        decreases n - i,
    {
        i = i + 1;
    }
    proof {
        assert forall|k: int| 0 <= k < i implies is_char(ch)(#[trigger] v@[k]) by {}
        lemma_trim_start_skip(v@, is_char(ch), i as int);
        if i < n {
            assert(v@.skip(i as int)[0] == v@[i as int]);
        }
        assert(trim_start_by(v@.skip(i as int), is_char(ch)) == v@.skip(i as int));
    }
    let mut out: Vec<char> = Vec::new();
    let mut k: usize = i;
    while k < n
        invariant
            i <= k <= n,
            n == v@.len(),
            out@ == v@.subrange(i as int, k as int),
        decreases n - k,
    {
        out.push(v[k]);
        k = k + 1;
        proof {
            assert(v@.subrange(i as int, k as int) == v@.subrange(i as int, k - 1).push(v@[k - 1]));
        }
    }
    proof {
        assert(out@ == v@.skip(i as int));
    }
    string_of(out.as_slice())
}

/// `s` without its trailing `ch` characters (`str::trim_end_matches`).
pub fn trim_end_char(s: &str, ch: char) -> (out: String)
    ensures
        out@ == trim_end_by(s@, is_char(ch)),
{
    let v = chars_of(s);
    let n = v.len();
    let mut j: usize = n;
    while j > 0 && v[j - 1] == ch
        invariant
            j <= n,
            n == v@.len(),
            forall|k: int| j <= k < n ==> #[trigger] v@[k] == ch,
        decreases j,
    {
        j = j - 1;
    }
    proof {
        assert forall|k: int| j <= k < n implies is_char(ch)(#[trigger] v@[k]) by {}
        lemma_trim_end_take(v@, is_char(ch), j as int);
        if j > 0 {
            assert(v@.take(j as int).last() == v@[j - 1]);
        }
        assert(trim_end_by(v@.take(j as int), is_char(ch)) == v@.take(j as int));
    }
    let mut out: Vec<char> = Vec::new();
    let mut k: usize = 0;
    while k < j
        invariant
            k <= j <= n,
            n == v@.len(),
            out@ == v@.take(k as int),
        decreases j - k,
    {
        out.push(v[k]);
        k = k + 1;
        proof {
            assert(v@.take(k as int) == v@.take(k - 1).push(v@[k - 1]));
        }
    }
    string_of(out.as_slice())
}

/// Whether `s` starts with `prefix`.
pub fn starts_with(s: &str, prefix: &str) -> (r: bool)
    ensures
        r == prefix@.is_prefix_of(s@),
{
    let v = chars_of(s);
    let p = chars_of(prefix);
    if p.len() > v.len() {
        return false;
    }
    let mut i: usize = 0;
    while i < p.len()
        invariant
            i <= p.len() <= v.len(),
            v@ == s@,
            p@ == prefix@,
            forall|k: int| 0 <= k < i ==> p@[k] == v@[k],
        decreases p.len() - i,
    {
        if p[i] != v[i] {
            proof {
                assert(v@.subrange(0, p@.len() as int)[i as int] == v@[i as int]);
                if prefix@.is_prefix_of(s@) {
                    assert(prefix@[i as int] == s@.subrange(0, prefix@.len() as int)[i as int]);
                }
            }
            return false;
        }
        i = i + 1;
    }
    proof {
        assert(p@ =~= v@.subrange(0, p@.len() as int));
    }
    true
}

/// The rest of `s` after `prefix`, when `s` starts with it
/// (`str::strip_prefix`).
pub fn strip_prefix(s: &str, prefix: &str) -> (r: Option<String>)
    ensures
        match r {
            Some(rest) => prefix@.is_prefix_of(s@) && rest@ == s@.skip(prefix@.len() as int),
            None => !prefix@.is_prefix_of(s@),
        },
{
    if !starts_with(s, prefix) {
        return None;
    }
    let v = chars_of(s);
    let n = chars_of(prefix).len();
    let mut out: Vec<char> = Vec::new();
    let mut k: usize = n;
    while k < v.len()
        invariant
            n == prefix@.len(),
            n <= k <= v.len(),
            v@ == s@,
            out@ == v@.subrange(n as int, k as int),
        decreases v.len() - k,
    {
        out.push(v[k]);
        k = k + 1;
        proof {
            assert(v@.subrange(n as int, k as int) == v@.subrange(n as int, k - 1).push(v@[k - 1]));
        }
    }
    Some(string_of(out.as_slice()))
}

/// Whether `i` is the position of the first `ch` in `s`.
pub open spec fn is_first_index(s: Seq<char>, ch: char, i: int) -> bool {
    0 <= i < s.len() && s[i] == ch && forall|k: int| 0 <= k < i ==> s[k] != ch
}

/// `s` without `suffix`, when `s` ends with it (`str::strip_suffix`).
pub fn strip_suffix(s: &str, suffix: &str) -> (r: Option<String>)
    ensures
        match r {
            Some(head) => suffix@.is_suffix_of(s@) && head@ == s@.take(s@.len() - suffix@.len()),
            None => !suffix@.is_suffix_of(s@),
        },
{
    let v = chars_of(s);
    let p = chars_of(suffix);
    if p.len() > v.len() {
        return None;
    }
    let off = v.len() - p.len();
    let mut i: usize = 0;
    while i < p.len()
        invariant
            v@ == s@,
            p@ == suffix@,
            off + p.len() == v.len(),
            i <= p.len(),
            forall|k: int| 0 <= k < i ==> p@[k] == v@[off + k],
        decreases p.len() - i,
    {
        if p[i] != v[off + i] {
            proof {
                if suffix@.is_suffix_of(s@) {
                    assert(suffix@[i as int] == s@.subrange(off as int, s@.len() as int)[i as int]);
                }
            }
            return None;
        }
        i = i + 1;
    }
    proof {
        assert(p@ =~= v@.subrange(off as int, v@.len() as int));
    }
    let mut out: Vec<char> = Vec::new();
    let mut k: usize = 0;
    while k < off
        invariant
            k <= off,
            off + p.len() == v.len(),
            out@ == v@.take(k as int),
        decreases off - k,
    {
        out.push(v[k]);
        k = k + 1;
        proof {
            assert(v@.take(k as int) == v@.take(k - 1).push(v@[k - 1]));
        }
    }
    Some(string_of(out.as_slice()))
}

/// The position of the first `ch` in `s`, if any.
pub open spec fn first_index_of(s: Seq<char>, ch: char) -> Option<int> {
    if s.contains(ch) {
        Some(choose|i: int| is_first_index(s, ch, i))
    } else {
        None
    }
}

pub proof fn lemma_first_index_of(s: Seq<char>, ch: char, i: int)
    requires
        is_first_index(s, ch, i),
    ensures
        first_index_of(s, ch) == Some(i),
{
    assert(s.contains(ch));
    let j = choose|j: int| is_first_index(s, ch, j);
    assert(is_first_index(s, ch, j));
    if j < i {
        assert(s[j] != ch);
    } else if j > i {
        assert(s[i] != ch);
    }
}

/// The part of `s` before the first `ch`, and the part after it when there is
/// one (`str::split_once`, and the first item of `str::split`).
pub fn split_once_char(s: &str, ch: char) -> (r: (String, Option<String>))
    ensures
        match first_index_of(s@, ch) {
            Some(i) => is_first_index(s@, ch, i) && r.0@ == s@.take(i) && (r.1 matches Some(rest)
                && rest@ == s@.skip(i + 1)),
            None => r.0@ == s@ && r.1 is None,
        },
{
    let v = chars_of(s);
    let mut i: usize = 0;
    while i < v.len() && v[i] != ch
        invariant
            i <= v.len(),
            v@ == s@,
            forall|k: int| 0 <= k < i ==> v@[k] != ch,
        decreases v.len() - i,
    {
        i = i + 1;
    }
    let mut head: Vec<char> = Vec::new();
    let mut k: usize = 0;
    while k < i
        invariant
            k <= i <= v.len(),
            head@ == v@.take(k as int),
        decreases i - k,
    {
        head.push(v[k]);
        k = k + 1;
        proof {
            assert(v@.take(k as int) == v@.take(k - 1).push(v@[k - 1]));
        }
    }
    if i == v.len() {
        proof {
            assert(!s@.contains(ch));
            assert(v@.take(i as int) == v@);
        }
        return (string_of(head.as_slice()), None);
    }
    proof {
        lemma_first_index_of(s@, ch, i as int);
    }
    let mut tail: Vec<char> = Vec::new();
    let mut m: usize = i + 1;
    while m < v.len()
        invariant
            i < v.len(),
            i + 1 <= m <= v.len(),
            tail@ == v@.subrange(i + 1, m as int),
        decreases v.len() - m,
    {
        tail.push(v[m]);
        m = m + 1;
        proof {
            assert(v@.subrange(i + 1, m as int) == v@.subrange(i + 1, m - 1).push(v@[m - 1]));
        }
    }
    proof {
        assert(tail@ == s@.skip(i + 1));
    }
    (string_of(head.as_slice()), Some(string_of(tail.as_slice())))
}

/// A line without a carriage return that ended it.
pub open spec fn strip_cr(line: Seq<char>) -> Seq<char> {
    if line.len() > 0 && line.last() == '\r' {
        line.drop_last()
    } else {
        line
    }
}

/// The lines of a text (`str::lines`): split at `\n`, a `\r` before the `\n`
/// dropped, and no empty line after a final `\n`.
pub open spec fn lines_of(s: Seq<char>) -> Seq<Seq<char>>
    decreases s.len(),
{
    if s.len() == 0 {
        Seq::empty()
    } else {
        match first_index_of(s, '\n') {
            Some(i) => if 0 <= i < s.len() {
                seq![strip_cr(s.take(i))] + lines_of(s.skip(i + 1))
            } else {
                Seq::empty()
            },
            None => seq![s],
        }
    }
}


/// The first line of a non-empty text and the text after it.
pub fn next_line(rest: &str) -> (r: (String, String))
    requires
        rest@.len() > 0,
    ensures
        lines_of(rest@) == seq![r.0@] + lines_of(r.1@),
        r.1@.len() < rest@.len(),
{
    let (head, tail) = split_once_char(rest, '\n');
    match tail {
        Some(t) => {
            let hv = chars_of(head.as_str());
            let line = if hv.len() > 0 && hv[hv.len() - 1] == '\r' {
                let mut w: Vec<char> = Vec::new();
                let mut k: usize = 0;
                while k < hv.len() - 1
                    invariant
                        hv.len() > 0,
                        k <= hv.len() - 1,
                        w@ == hv@.take(k as int),
                    decreases hv.len() - 1 - k,
                {
                    w.push(hv[k]);
                    k = k + 1;
                    proof {
                        assert(hv@.take(k as int) == hv@.take(k - 1).push(hv@[k - 1]));
                    }
                }
                string_of(w.as_slice())
            } else {
                owned(head.as_str())
            };
            proof {
                let i = first_index_of(rest@, '\n')->Some_0;
                assert(line@ == strip_cr(rest@.take(i)));
            }
            (line, t)
        },
        None => {
            proof {
                assert(lines_of(rest@) == seq![rest@]);
                assert(seq![rest@] + lines_of(Seq::<char>::empty()) == seq![rest@]);
            }
            (head, String::new())
        },
    }
}

/// Whether `needle` occurs in `s` at position `i`.
pub open spec fn occurs_at(s: Seq<char>, needle: Seq<char>, i: int) -> bool {
    0 <= i && i + needle.len() <= s.len() && s.subrange(i, i + needle.len()) == needle
}

/// Whether `needle` occurs in `s` (`str::contains`).
pub open spec fn contains_seq(s: Seq<char>, needle: Seq<char>) -> bool {
    exists|i: int| occurs_at(s, needle, i)
}

/// Whether `needle` occurs in `s`.
pub fn contains_str(s: &str, needle: &str) -> (r: bool)
    ensures
        r == contains_seq(s@, needle@),
{
    let v = chars_of(s);
    let p = chars_of(needle);
    if p.len() > v.len() {
        proof {
            assert forall|i: int| !occurs_at(s@, needle@, i) by {}
        }
        return false;
    }
    let last = v.len() - p.len();
    let mut i: usize = 0;
    while i <= last
        invariant
            v@ == s@,
            p@ == needle@,
            last == v@.len() - p@.len(),
            i <= last + 1,
            forall|k: int| 0 <= k < i ==> !occurs_at(s@, needle@, k),
        decreases last + 1 - i,
    {
        let mut j: usize = 0;
        let mut same = true;
        while j < p.len()
            invariant
                v@ == s@,
                p@ == needle@,
                i <= last,
                last == v@.len() - p@.len(),
                p@.len() <= v@.len(),
                i + p.len() <= v.len(),
                j <= p.len(),
                same == forall|k: int| 0 <= k < j ==> v@[i + k] == p@[k],
            decreases p.len() - j,
        {
            if v[i + j] != p[j] {
                same = false;
            }
            j = j + 1;
        }
        if same {
            proof {
                assert(s@.subrange(i as int, i + needle@.len()) =~= needle@);
                assert(occurs_at(s@, needle@, i as int));
            }
            return true;
        }
        proof {
            let k0 = choose|k: int| 0 <= k < p@.len() && v@[i + k] != p@[k];
            if occurs_at(s@, needle@, i as int) {
                assert(s@.subrange(i as int, i + needle@.len())[k0] == v@[i + k0]);
            }
        }
        if i == last {
            proof {
                assert forall|k: int| !occurs_at(s@, needle@, k) by {
                    if k > last {
                    }
                }
            }
            return false;
        }
        i = i + 1;
    }
    proof {
        assert forall|k: int| !occurs_at(s@, needle@, k) by {}
    }
    false
}


// ---------------------------------------------------------------------------
// Decimal text of numbers
// ---------------------------------------------------------------------------

/// The character of a decimal digit.
pub open spec fn digit_char(d: nat) -> char {
    if d == 0 {
        '0'
    } else if d == 1 {
        '1'
    } else if d == 2 {
        '2'
    } else if d == 3 {
        '3'
    } else if d == 4 {
        '4'
    } else if d == 5 {
        '5'
    } else if d == 6 {
        '6'
    } else if d == 7 {
        '7'
    } else if d == 8 {
        '8'
    } else {
        '9'
    }
}

/// The decimal text of `n`, without leading zeros (`n.to_string()`).
pub open spec fn decimal(n: nat) -> Seq<char>
    decreases n,
{
    if n < 10 {
        seq![digit_char(n)]
    } else {
        decimal(n / 10).push(digit_char(n % 10))
    }
}

fn digit(d: u64) -> (c: char)
    requires
        d < 10,
    ensures
        c == digit_char(d as nat),
{
    if d == 0 {
        '0'
    } else if d == 1 {
        '1'
    } else if d == 2 {
        '2'
    } else if d == 3 {
        '3'
    } else if d == 4 {
        '4'
    } else if d == 5 {
        '5'
    } else if d == 6 {
        '6'
    } else if d == 7 {
        '7'
    } else if d == 8 {
        '8'
    } else {
        '9'
    }
}

fn decimal_chars(n: u64) -> (v: Vec<char>)
    ensures
        v@ == decimal(n as nat),
    decreases n,
{
    if n < 10 {
        let mut v: Vec<char> = Vec::new();
        v.push(digit(n));
        v
    } else {
        let mut v = decimal_chars(n / 10);
        v.push(digit(n % 10));
        v
    }
}

/// The decimal text of `n`.
pub fn u64_to_string(n: u64) -> (s: String)
    ensures
        s@ == decimal(n as nat),
{
    let v = decimal_chars(n);
    string_of(v.as_slice())
}

// ---------------------------------------------------------------------------
// Laws of identifier normalization
// ---------------------------------------------------------------------------

/// A non-empty run of ASCII letters and digits.
pub open spec fn is_ident_part(x: Seq<char>) -> bool {
    x.len() > 0 && forall|k: int| 0 <= k < x.len() ==> is_ascii_alnum(#[trigger] x[k])
}

pub open spec fn all_ident_parts(p: Seq<Seq<char>>) -> bool {
    forall|i: int| 0 <= i < p.len() ==> is_ident_part(#[trigger] p[i])
}

/// Every character is an ASCII letter, digit or `_`.
pub open spec fn is_ident_text(s: Seq<char>) -> bool {
    forall|k: int| 0 <= k < s.len() ==> (is_ascii_alnum(#[trigger] s[k]) || s[k] == '_')
}

proof fn lemma_segments_parts(s: Seq<char>)
    requires
        is_ident_text(s),
    ensures
        all_ident_parts(segments(s, '_')),
    decreases s.len(),
{
    if s.len() > 0 {
        let d = s.drop_last();
        assert(is_ident_text(d)) by {
            assert forall|k: int| 0 <= k < d.len() implies (is_ascii_alnum(#[trigger] d[k]) || d[k]
                == '_') by {
                assert(d[k] == s[k]);
            }
        }
        lemma_segments_parts(d);
        let p = segments(d, '_');
        let c = s.last();
        assert(is_ascii_alnum(c) || c == '_') by {
            assert(s[s.len() - 1] == c);
        }
        if c != '_' {
            if s.len() >= 2 && s[s.len() - 2] != '_' && p.len() > 0 {
                let q = p.update(p.len() - 1, p.last().push(c));
                assert forall|i: int| 0 <= i < q.len() implies is_ident_part(#[trigger] q[i]) by {
                    if i == p.len() - 1 {
                        assert(is_ident_part(p[i]));
                        let x = p.last().push(c);
                        assert forall|k: int| 0 <= k < x.len() implies is_ascii_alnum(
                            #[trigger] x[k],
                        ) by {
                            if k < p.last().len() {
                                assert(x[k] == p[i][k]);
                            }
                        }
                    }
                }
            } else {
                let q = p.push(seq![c]);
                assert forall|i: int| 0 <= i < q.len() implies is_ident_part(#[trigger] q[i]) by {
                    if i < p.len() {
                        assert(q[i] == p[i]);
                    }
                }
            }
        }
    }
}

proof fn lemma_segments_single_part(x: Seq<char>)
    requires
        is_ident_part(x),
    ensures
        segments(x, '_') == seq![x],
    decreases x.len(),
{
    let d = x.drop_last();
    let c = x.last();
    assert(is_ascii_alnum(c)) by {
        assert(x[x.len() - 1] == c);
    }
    if d.len() == 0 {
        assert(segments(d, '_') == Seq::<Seq<char>>::empty());
        assert(seq![c] == x);
    } else {
        assert(is_ident_part(d)) by {
            assert forall|k: int| 0 <= k < d.len() implies is_ascii_alnum(#[trigger] d[k]) by {
                assert(d[k] == x[k]);
            }
        }
        lemma_segments_single_part(d);
        assert(x[x.len() - 2] == d.last());
        assert(is_ascii_alnum(d[d.len() - 1]));
        assert(seq![d].update(0, d.push(c)) == seq![x]) by {
            assert(d.push(c) == x);
        }
    }
}

proof fn lemma_segments_after_sep(a: Seq<char>, x: Seq<char>)
    requires
        is_ident_part(x),
    ensures
        segments(a + seq!['_'] + x, '_') == segments(a, '_').push(x),
    decreases x.len(),
{
    let y = a + seq!['_'] + x;
    let d = x.drop_last();
    let c = x.last();
    assert(is_ascii_alnum(c)) by {
        assert(x[x.len() - 1] == c);
    }
    assert(y.last() == c);
    assert(y.drop_last() == a + seq!['_'] + d);
    if d.len() == 0 {
        let z = a + seq!['_'];
        assert(y.drop_last() == z);
        assert(z.drop_last() == a);
        assert(z.last() == '_');
        assert(segments(z, '_') == segments(a, '_'));
        assert(y[y.len() - 2] == '_');
        assert(seq![c] == x);
    } else {
        assert(is_ident_part(d)) by {
            assert forall|k: int| 0 <= k < d.len() implies is_ascii_alnum(#[trigger] d[k]) by {
                assert(d[k] == x[k]);
            }
        }
        lemma_segments_after_sep(a, d);
        let p = segments(a, '_').push(d);
        assert(y[y.len() - 2] == d.last());
        assert(is_ascii_alnum(d[d.len() - 1]));
        assert(p.update(p.len() - 1, p.last().push(c)) == segments(a, '_').push(x)) by {
            assert(d.push(c) == x);
        }
    }
}

proof fn lemma_segments_of_join(p: Seq<Seq<char>>)
    requires
        all_ident_parts(p),
    ensures
        segments(join(p, seq!['_']), '_') == p,
    decreases p.len(),
{
    if p.len() == 0 {
    } else if p.len() == 1 {
        assert(is_ident_part(p[0]));
        lemma_segments_single_part(p[0]);
        assert(seq![p[0]] == p);
    } else {
        let d = p.drop_last();
        assert(all_ident_parts(d)) by {
            assert forall|i: int| 0 <= i < d.len() implies is_ident_part(#[trigger] d[i]) by {
                assert(d[i] == p[i]);
            }
        }
        lemma_segments_of_join(d);
        assert(is_ident_part(p[p.len() - 1]));
        lemma_segments_after_sep(join(d, seq!['_']), p.last());
        assert(d.push(p.last()) == p);
    }
}

proof fn lemma_join_shape(p: Seq<Seq<char>>)
    requires
        all_ident_parts(p),
    ensures
        is_ident_text(join(p, seq!['_'])),
        join(p, seq!['_']).len() > 0 ==> join(p, seq!['_'])[0] != '_',
        join(p, seq!['_']).len() > 0 ==> join(p, seq!['_']).last() != '_',
        forall|k: int|
            0 <= k < join(p, seq!['_']).len() - 1 ==> !(#[trigger] join(p, seq!['_'])[k] == '_'
                && join(p, seq!['_'])[k + 1] == '_'),
    decreases p.len(),
{
    let j = join(p, seq!['_']);
    if p.len() == 1 {
        assert(is_ident_part(p[0]));
        assert(is_ascii_alnum(p[0][0]));
        assert(is_ascii_alnum(p[0][p[0].len() - 1]));
    } else if p.len() >= 2 {
        let d = p.drop_last();
        assert(all_ident_parts(d)) by {
            assert forall|i: int| 0 <= i < d.len() implies is_ident_part(#[trigger] d[i]) by {
                assert(d[i] == p[i]);
            }
        }
        lemma_join_shape(d);
        let a = join(d, seq!['_']);
        let x = p.last();
        assert(is_ident_part(p[p.len() - 1]));
        assert(j == a + seq!['_'] + x);
        assert(a.len() > 0) by {
            assert(is_ident_part(d[0]));
            lemma_join_len_pos(d);
        }
        assert forall|k: int| 0 <= k < j.len() implies (is_ascii_alnum(#[trigger] j[k]) || j[k]
            == '_') by {
            if k < a.len() {
                assert(j[k] == a[k]);
            } else if k > a.len() {
                assert(j[k] == x[k - a.len() - 1]);
            }
        }
        assert(j[0] == a[0]);
        assert(j.last() == x[x.len() - 1]);
        assert forall|k: int| 0 <= k < j.len() - 1 implies !(#[trigger] j[k] == '_' && j[k + 1]
            == '_') by {
            if k < a.len() - 1 {
                assert(j[k] == a[k] && j[k + 1] == a[k + 1]);
            } else if k == a.len() - 1 {
                assert(j[k] == a.last());
            } else if k == a.len() {
                assert(j[k + 1] == x[0]);
            } else {
                assert(j[k] == x[k - a.len() - 1]);
            }
        }
    }
}

proof fn lemma_join_len_pos(p: Seq<Seq<char>>)
    requires
        p.len() > 0,
        is_ident_part(p[0]),
    ensures
        join(p, seq!['_']).len() > 0,
    decreases p.len(),
{
    if p.len() >= 2 {
        assert(p.drop_last()[0] == p[0]);
        lemma_join_len_pos(p.drop_last());
    }
}

proof fn lemma_ident_map_identity(s: Seq<char>)
    requires
        is_ident_text(s),
    ensures
        s.map_values(|c: char| ident_char(c)) == s,
{
    assert(s.map_values(|c: char| ident_char(c)) =~= s);
}

proof fn lemma_mapped_is_ident_text(s: Seq<char>)
    ensures
        is_ident_text(s.map_values(|c: char| ident_char(c))),
{
}

/// Law: a collapsed identifier consists of ASCII letters, digits and `_`,
/// neither starts nor ends with `_`, and never holds two `_` in a row.
pub proof fn law_collapse_identifier_shape(s: Seq<char>)
    ensures
        is_ident_text(collapse_identifier(s)),
        collapse_identifier(s).len() > 0 ==> collapse_identifier(s)[0] != '_',
        collapse_identifier(s).len() > 0 ==> collapse_identifier(s).last() != '_',
        forall|k: int|
            0 <= k < collapse_identifier(s).len() - 1 ==> !(#[trigger] collapse_identifier(s)[k]
                == '_' && collapse_identifier(s)[k + 1] == '_'),
{
    let m = s.map_values(|c: char| ident_char(c));
    lemma_mapped_is_ident_text(s);
    lemma_segments_parts(m);
    lemma_join_shape(segments(m, '_'));
}

/// Law: collapsing is idempotent; a collapsed identifier collapses to itself.
pub proof fn law_collapse_identifier_idempotent(s: Seq<char>)
    ensures
        collapse_identifier(collapse_identifier(s)) == collapse_identifier(s),
{
    let m = s.map_values(|c: char| ident_char(c));
    lemma_mapped_is_ident_text(s);
    lemma_segments_parts(m);
    let p = segments(m, '_');
    lemma_join_shape(p);
    let r = join(p, seq!['_']);
    lemma_ident_map_identity(r);
    lemma_segments_of_join(p);
}


proof fn lemma_segments_no_capital(s: Seq<char>, sep: char)
    requires
        has_no_capital(s),
    ensures
        forall|j: int|
            0 <= j < segments(s, sep).len() ==> has_no_capital(#[trigger] segments(s, sep)[j]),
    decreases s.len(),
{
    if s.len() > 0 {
        let d = s.drop_last();
        assert(has_no_capital(d)) by {
            assert forall|k: int| 0 <= k < d.len() implies !is_ascii_upper(#[trigger] d[k]) by {
                assert(d[k] == s[k]);
            }
        }
        lemma_segments_no_capital(d, sep);
        let p = segments(d, sep);
        let c = s.last();
        assert(!is_ascii_upper(c)) by {
            assert(s[s.len() - 1] == c);
        }
        if c != sep {
            if s.len() >= 2 && s[s.len() - 2] != sep && p.len() > 0 {
                let q = p.update(p.len() - 1, p.last().push(c));
                assert forall|j: int| 0 <= j < q.len() implies has_no_capital(#[trigger] q[j]) by {
                    if j == p.len() - 1 {
                        assert(has_no_capital(p[j]));
                        let x = p.last().push(c);
                        assert forall|k: int| 0 <= k < x.len() implies !is_ascii_upper(
                            #[trigger] x[k],
                        ) by {
                            if k < p.last().len() {
                                assert(x[k] == p[j][k]);
                            }
                        }
                    }
                }
            } else {
                let q = p.push(seq![c]);
                assert forall|j: int| 0 <= j < q.len() implies has_no_capital(#[trigger] q[j]) by {
                    if j < p.len() {
                        assert(q[j] == p[j]);
                    }
                }
            }
        }
    }
}

proof fn lemma_join_no_capital(parts: Seq<Seq<char>>)
    requires
        forall|j: int| 0 <= j < parts.len() ==> has_no_capital(#[trigger] parts[j]),
    ensures
        has_no_capital(join(parts, seq!['_'])),
    decreases parts.len(),
{
    if parts.len() == 1 {
        assert(has_no_capital(parts[0]));
    } else if parts.len() >= 2 {
        let d = parts.drop_last();
        assert forall|j: int| 0 <= j < d.len() implies has_no_capital(#[trigger] d[j]) by {
            assert(d[j] == parts[j]);
        }
        lemma_join_no_capital(d);
        let a = join(d, seq!['_']);
        let x = parts.last();
        assert(has_no_capital(parts[parts.len() - 1]));
        let j = join(parts, seq!['_']);
        assert(j == a + seq!['_'] + x);
        assert forall|k: int| 0 <= k < j.len() implies !is_ascii_upper(#[trigger] j[k]) by {
            if k < a.len() {
                assert(j[k] == a[k]);
            } else if k > a.len() {
                assert(j[k] == x[k - a.len() - 1]);
            }
        }
    }
}

proof fn lemma_segments_empty(s: Seq<char>, sep: char)
    ensures
        segments(s, sep).len() == 0 <==> forall|k: int| 0 <= k < s.len() ==> #[trigger] s[k] == sep,
    decreases s.len(),
{
    if s.len() > 0 {
        let d = s.drop_last();
        lemma_segments_empty(d, sep);
        if segments(s, sep).len() == 0 {
            assert forall|k: int| 0 <= k < s.len() implies #[trigger] s[k] == sep by {
                if k < d.len() {
                    assert(d[k] == s[k]);
                }
            }
        }
        if forall|k: int| 0 <= k < s.len() ==> #[trigger] s[k] == sep {
            assert(s[s.len() - 1] == sep);
            assert forall|k: int| 0 <= k < d.len() implies #[trigger] d[k] == sep by {
                assert(d[k] == s[k]);
            }
        }
    }
}

/// Law: collapsing gives the empty text exactly when the text holds no ASCII
/// letter or digit.
pub proof fn law_collapse_identifier_empty(s: Seq<char>)
    ensures
        collapse_identifier(s).len() == 0 <==> forall|k: int|
            0 <= k < s.len() ==> !is_ascii_alnum(#[trigger] s[k]),
{
    let m = s.map_values(|c: char| ident_char(c));
    lemma_mapped_is_ident_text(s);
    lemma_segments_parts(m);
    lemma_segments_empty(m, '_');
    let p = segments(m, '_');
    if p.len() > 0 {
        assert(is_ident_part(p[0]));
        lemma_join_len_pos(p);
    }
    assert(forall|k: int| 0 <= k < s.len() ==> (m[k] == '_' <==> !is_ascii_alnum(#[trigger] s[k])));
}

/// Law: a normalized identifier consists of small ASCII letters, digits and
/// `_` only, neither starts nor ends with `_`, never holds two `_` in a row,
/// and is empty exactly when the lower-cased, trimmed text holds no ASCII
/// letter or digit.
pub proof fn law_normalized_identifier_form(s: Seq<char>)
    ensures
        is_ident_text(normalized_identifier(s)),
        has_no_capital(normalized_identifier(s)),
        normalized_identifier(s).len() > 0 ==> normalized_identifier(s)[0] != '_',
        normalized_identifier(s).len() > 0 ==> normalized_identifier(s).last() != '_',
        forall|k: int|
            0 <= k < normalized_identifier(s).len() - 1 ==> !(#[trigger] normalized_identifier(
                s,
            )[k] == '_' && normalized_identifier(s)[k + 1] == '_'),
        normalized_identifier(s).len() == 0 <==> forall|k: int|
            0 <= k < lowercased(trim_seq(s)).len() ==> !is_ascii_alnum(
                #[trigger] lowercased(trim_seq(s))[k],
            ),
{
    let l = lowercased(trim_seq(s));
    law_collapse_identifier_shape(l);
    law_collapse_identifier_empty(l);
    if is_ascii_text(trim_seq(s)) {
        lemma_ascii_lowercased_no_capital(trim_seq(s));
    } else {
        lemma_ascii_lowercased_no_capital(spec_lowercase(trim_seq(s)));
    }
    let m = l.map_values(|c: char| ident_char(c));
    assert(has_no_capital(m)) by {
        assert forall|k: int| 0 <= k < m.len() implies !is_ascii_upper(#[trigger] m[k]) by {
            assert(m[k] == ident_char(l[k]));
        }
    }
    lemma_segments_no_capital(m, '_');
    lemma_join_no_capital(segments(m, '_'));
}

/// Law: normalizing is idempotent; a normalized identifier normalizes to
/// itself.
pub proof fn law_normalized_identifier_idempotent(s: Seq<char>)
    ensures
        normalized_identifier(normalized_identifier(s)) == normalized_identifier(s),
{
    let r = normalized_identifier(s);
    law_normalized_identifier_form(s);
    assert(trim_seq(r) == r) by {
        if r.len() > 0 {
            assert(is_ascii_alnum(r[0]) || r[0] == '_');
            assert(is_ascii_alnum(r[r.len() - 1]) || r[r.len() - 1] == '_');
        }
    }
    assert(is_ascii_text(r)) by {
        assert forall|k: int| 0 <= k < r.len() implies (#[trigger] r[k] as u32) < 128 by {
            assert(is_ascii_alnum(r[k]) || r[k] == '_');
        }
    }
    lemma_ascii_lowercased_identity(r);
    law_collapse_identifier_idempotent(lowercased(trim_seq(s)));
}

} // verus!

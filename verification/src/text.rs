//! Verified text utilities: character classes, decimal rendering and
//! parsing, colon splitting, whitespace splitting, word cleaning and the
//! placeholder scan used by the template engine.

use vstd::prelude::*;
use vstd::string::StrSliceExecFns;
use vstd::string::StringExecFns;

verus! {

// ---------------------------------------------------------------------------
// Character classes
// ---------------------------------------------------------------------------

/// An ASCII decimal digit.
pub open spec fn is_ascii_digit_char(c: char) -> bool {
    '0' as u32 <= c as u32 && c as u32 <= '9' as u32
}

/// Numeric value of an ASCII decimal digit.
pub open spec fn digit_val(c: char) -> int {
    c as u32 - '0' as u32
}

/// The decimal digit character for a value below ten.
pub open spec fn digit_char(d: int) -> char {
    if d == 0 { '0' }
    else if d == 1 { '1' }
    else if d == 2 { '2' }
    else if d == 3 { '3' }
    else if d == 4 { '4' }
    else if d == 5 { '5' }
    else if d == 6 { '6' }
    else if d == 7 { '7' }
    else if d == 8 { '8' }
    else { '9' }
}

/// A Unicode whitespace character, as listed for the White_Space property.
pub open spec fn is_ws_char(c: char) -> bool {
    ||| (0x09 <= c as u32 && c as u32 <= 0x0D)
    ||| c as u32 == 0x20
    ||| c as u32 == 0x85
    ||| c as u32 == 0xA0
    ||| c as u32 == 0x1680
    ||| (0x2000 <= c as u32 && c as u32 <= 0x200A)
    ||| c as u32 == 0x2028
    ||| c as u32 == 0x2029
    ||| c as u32 == 0x202F
    ||| c as u32 == 0x205F
    ||| c as u32 == 0x3000
}

/// Whether `c` is a Unicode whitespace character.
pub fn is_whitespace_char(c: char) -> (r: bool)
    ensures
        r == is_ws_char(c),
{
    let u = c as u32;
    (0x09 <= u && u <= 0x0D) || u == 0x20 || u == 0x85 || u == 0xA0 || u == 0x1680 || (0x2000 <= u
        && u <= 0x200A) || u == 0x2028 || u == 0x2029 || u == 0x202F || u == 0x205F || u == 0x3000
}

/// An ASCII letter or digit.
pub open spec fn is_ascii_alnum_char(c: char) -> bool {
    ||| is_ascii_digit_char(c)
    ||| ('a' as u32 <= c as u32 && c as u32 <= 'z' as u32)
    ||| ('A' as u32 <= c as u32 && c as u32 <= 'Z' as u32)
}

/// What `char::is_alphanumeric` returns for a character: membership in
/// Unicode Alphabetic or the Nd, Nl, No number categories.
pub uninterp spec fn is_unicode_alnum(c: char) -> bool;

/// Relies on char::is_alphanumeric: the result depends on the character
/// alone, and on ASCII characters it holds exactly for letters and digits.
#[verifier::external_body]
pub(crate) fn char_is_alphanumeric(c: char) -> (r: bool)
    ensures
        r == is_unicode_alnum(c),
        (c as u32) < 128 ==> r == is_ascii_alnum_char(c),
{
    c.is_alphanumeric()
}

/// A character kept by word cleaning: alphanumeric or one of `@`, `[`, `]`.
pub open spec fn is_keep_char(c: char) -> bool {
    is_unicode_alnum(c) || c == '@' || c == '[' || c == ']'
}

/// Whether word cleaning keeps `c`.
pub fn keep_char(c: char) -> (r: bool)
    ensures
        r == is_keep_char(c),
{
    char_is_alphanumeric(c) || c == '@' || c == '[' || c == ']'
}

// ---------------------------------------------------------------------------
// Small string building blocks
// ---------------------------------------------------------------------------

/// Relies on String::push: appends exactly the one character.
#[verifier::external_body]
pub(crate) fn push_char(s: &mut String, c: char)
    ensures
        final(s)@ == old(s)@.push(c),
{
    s.push(c)
}

/// Character-for-character string equality.
pub fn str_eq(a: &str, b: &str) -> (r: bool)
    ensures
        r == (a@ == b@),
{
    let alen = a.unicode_len();
    let blen = b.unicode_len();
    if alen != blen {
        assert(a@ != b@) by {
            assert(a@.len() != b@.len());
        }
        return false;
    }
    let mut i: usize = 0;
    while i < alen
        invariant
            i <= alen,
            alen == a@.len(),
            alen == b@.len(),
            forall|j: int| 0 <= j < i ==> a@[j] == b@[j],
        decreases alen - i,
    {
        if a.get_char(i) != b.get_char(i) {
            return false;
        }
        i = i + 1;
    }
    proof {
        assert(a@ =~= b@);
    }
    true
}

// ---------------------------------------------------------------------------
// Decimal rendering
// ---------------------------------------------------------------------------

/// Decimal rendering of a natural number, most significant digit first.
pub open spec fn spec_dec(n: nat) -> Seq<char>
    decreases n,
{
    if n < 10 {
        seq![digit_char(n as int)]
    } else {
        spec_dec(n / 10) + seq![digit_char((n % 10) as int)]
    }
}

/// Decimal rendering of a signed value: a minus sign before the magnitude.
pub open spec fn spec_dec_signed(v: int) -> Seq<char> {
    if v >= 0 {
        spec_dec(v as nat)
    } else {
        seq!['-'] + spec_dec((-v) as nat)
    }
}

fn digit_to_char(d: u64) -> (c: char)
    requires
        d < 10,
    ensures
        c == digit_char(d as int),
{
    if d == 0 { '0' }
    else if d == 1 { '1' }
    else if d == 2 { '2' }
    else if d == 3 { '3' }
    else if d == 4 { '4' }
    else if d == 5 { '5' }
    else if d == 6 { '6' }
    else if d == 7 { '7' }
    else if d == 8 { '8' }
    else { '9' }
}

/// Renders `n` in decimal.
pub fn u64_to_string(n: u64) -> (s: String)
    ensures
        s@ == spec_dec(n as nat),
    decreases n,
{
    if n < 10 {
        let mut s = String::new();
        push_char(&mut s, digit_to_char(n));
        proof {
            assert(s@ =~= spec_dec(n as nat));
        }
        s
    } else {
        let mut s = u64_to_string(n / 10);
        push_char(&mut s, digit_to_char(n % 10));
        proof {
            assert(s@ =~= spec_dec(n as nat));
        }
        s
    }
}

/// Renders a signed 64-bit value in decimal.
pub fn i64_to_string(v: i64) -> (s: String)
    ensures
        s@ == spec_dec_signed(v as int),
{
    if v >= 0 {
        u64_to_string(v as u64)
    } else {
        let mag: u64 = ((-(v + 1)) as u64) + 1;
        assert(mag == -(v as int));
        let digits = u64_to_string(mag);
        let mut s = String::from_str("-");
        proof {
            reveal_strlit("-");
            assert(s@ =~= seq!['-']);
        }
        s.append(digits.as_str());
        proof {
            assert(s@ =~= spec_dec_signed(v as int));
        }
        s
    }
}

/// Renders a 16-bit value in decimal.
pub fn i16_to_string(v: i16) -> (s: String)
    ensures
        s@ == spec_dec_signed(v as int),
{
    i64_to_string(v as i64)
}

// ---------------------------------------------------------------------------
// Decimal parsing
// ---------------------------------------------------------------------------

/// A non-empty sequence of ASCII decimal digits.
pub open spec fn is_digit_seq(s: Seq<char>) -> bool {
    s.len() > 0 && forall|i: int| 0 <= i < s.len() ==> is_ascii_digit_char(#[trigger] s[i])
}

/// The value of a sequence of decimal digits, most significant first.
pub open spec fn dec_val(s: Seq<char>) -> int
    decreases s.len(),
{
    if s.len() == 0 {
        0
    } else {
        dec_val(s.drop_last()) * 10 + digit_val(s.last())
    }
}

proof fn lemma_dec_val_nonneg(s: Seq<char>)
    requires
        forall|i: int| 0 <= i < s.len() ==> is_ascii_digit_char(#[trigger] s[i]),
    ensures
        dec_val(s) >= 0,
    decreases s.len(),
{
    if s.len() > 0 {
        lemma_dec_val_nonneg(s.drop_last());
    }
}

/// A digit sequence is worth at least as much as any of its prefixes.
proof fn lemma_dec_val_prefix(s: Seq<char>, n: int)
    requires
        0 <= n <= s.len(),
        forall|i: int| 0 <= i < s.len() ==> is_ascii_digit_char(#[trigger] s[i]),
    ensures
        dec_val(s) >= dec_val(s.take(n)),
    decreases s.len() - n,
{
    if n < s.len() {
        lemma_dec_val_prefix(s, n + 1);
        let p = s.take(n + 1);
        assert(p.drop_last() =~= s.take(n));
        lemma_dec_val_nonneg(s.take(n));
        assert(dec_val(p) == dec_val(s.take(n)) * 10 + digit_val(p.last()));
    } else {
        assert(s.take(n) =~= s);
    }
}

/// What parsing a 16-bit decimal integer returns: an optional sign, then
/// one or more digits, and a value within the type's range.
pub open spec fn spec_parse_i16(s: Seq<char>) -> Option<i16> {
    let neg = s.len() > 0 && s[0] == '-';
    let ds = if s.len() > 0 && (s[0] == '-' || s[0] == '+') {
        s.subrange(1, s.len() as int)
    } else {
        s
    };
    if is_digit_seq(ds) {
        let v = dec_val(ds);
        if neg {
            if v <= 32768 {
                Some((-v) as i16)
            } else {
                None
            }
        } else {
            if v <= 32767 {
                Some(v as i16)
            } else {
                None
            }
        }
    } else {
        None
    }
}

/// Parses a 16-bit decimal integer, as `i16::from_str` accepts it.
pub fn parse_i16_str(s: &str) -> (r: Option<i16>)
    ensures
        r == spec_parse_i16(s@),
{
    let n = s.unicode_len();
    let ghost whole = s@;
    let mut start: usize = 0;
    let mut neg: bool = false;
    if n > 0 {
        let c0 = s.get_char(0);
        if c0 == '-' {
            neg = true;
            start = 1;
        } else if c0 == '+' {
            start = 1;
        }
    }
    let ghost ds = if whole.len() > 0 && (whole[0] == '-' || whole[0] == '+') {
        whole.subrange(1, whole.len() as int)
    } else {
        whole
    };
    assert(ds =~= whole.subrange(start as int, whole.len() as int));
    if start == n {
        // no digits at all
        assert(!is_digit_seq(ds));
        return None;
    }
    let mut i: usize = start;
    let mut acc: u64 = 0;
    let mut over: bool = false;
    while i < n
        invariant
            start <= i <= n,
            n == whole.len(),
            whole == s@,
            ds == whole.subrange(start as int, whole.len() as int),
            ds == (if whole.len() > 0 && (whole[0] == '-' || whole[0] == '+') {
                whole.subrange(1, whole.len() as int)
            } else {
                whole
            }),
            neg == (whole.len() > 0 && whole[0] == '-'),
            forall|j: int| start <= j < i ==> is_ascii_digit_char(#[trigger] whole[j]),
            !over ==> acc <= 65535 && acc == dec_val(whole.subrange(start as int, i as int)),
            over ==> dec_val(whole.subrange(start as int, i as int)) > 65535,
        decreases n - i,
    {
        let c = s.get_char(i);
        let u = c as u32;
        if u < '0' as u32 || u > '9' as u32 {
            assert(!is_ascii_digit_char(ds[i - start]));
            assert(!is_digit_seq(ds));
            return None;
        }
        let d: u64 = (u - '0' as u32) as u64;
        proof {
            assert(whole.subrange(start as int, i + 1) =~= whole.subrange(
                start as int,
                i as int,
            ).push(whole[i as int]));
            assert(whole.subrange(start as int, i + 1).drop_last() =~= whole.subrange(
                start as int,
                i as int,
            ));
        }
        if over {
            proof {
                let p = whole.subrange(start as int, i as int);
                let q = whole.subrange(start as int, i + 1);
                assert(dec_val(q) == dec_val(p) * 10 + digit_val(q.last()));
            }
        } else {
            let next: u64 = acc * 10 + d;
            if next > 65535 {
                over = true;
            } else {
                acc = next;
            }
        }
        i = i + 1;
    }
    assert(ds =~= whole.subrange(start as int, n as int));
    assert(is_digit_seq(ds));
    if over {
        proof {
            lemma_dec_val_prefix(ds, n - start);
            assert(ds.take(n - start) =~= ds);
        }
        return None;
    }
    assert(acc == dec_val(ds));
    if neg {
        if acc <= 32768 {
            Some((-(acc as i32)) as i16)
        } else {
            None
        }
    } else {
        if acc <= 32767 {
            Some(acc as i16)
        } else {
            None
        }
    }
}

// ---------------------------------------------------------------------------
// Splitting on colons
// ---------------------------------------------------------------------------

/// The colon-separated parts of `s` from position `pos` on, with `cur`
/// holding the characters of the current part read so far.
pub open spec fn spec_split_colon_from(s: Seq<char>, pos: int, cur: Seq<char>) -> Seq<Seq<char>>
    decreases s.len() - pos,
{
    if pos < 0 || pos >= s.len() {
        seq![cur]
    } else if s[pos] == ':' {
        seq![cur] + spec_split_colon_from(s, pos + 1, Seq::empty())
    } else {
        spec_split_colon_from(s, pos + 1, cur.push(s[pos]))
    }
}

/// The colon-separated parts of `s`, as `str::split(':')` yields them:
/// always at least one part, and one more part for every colon.
pub open spec fn spec_split_colon(s: Seq<char>) -> Seq<Seq<char>> {
    spec_split_colon_from(s, 0, Seq::empty())
}

/// Splits `s` on `:` into its parts.
pub fn split_colon(s: &str) -> (parts: Vec<String>)
    ensures
        parts.deep_view() == spec_split_colon(s@),
        parts@.len() >= 1,
{
    let n = s.unicode_len();
    let mut parts: Vec<String> = Vec::new();
    let mut cur = String::new();
    let mut i: usize = 0;
    while i < n
        invariant
            i <= n,
            n == s@.len(),
            spec_split_colon(s@) == parts.deep_view() + spec_split_colon_from(s@, i as int, cur@),
        decreases n - i,
    {
        let c = s.get_char(i);
        let ghost pdv = parts.deep_view();
        let ghost cv = cur@;
        if c == ':' {
            parts.push(cur);
            cur = String::new();
            proof {
                assert(parts.deep_view() =~= pdv.push(cv));
                assert(pdv + (seq![cv] + spec_split_colon_from(s@, i + 1, Seq::empty()))
                    =~= pdv.push(cv) + spec_split_colon_from(s@, i + 1, Seq::empty()));
            }
        } else {
            push_char(&mut cur, c);
        }
        i = i + 1;
    }
    let ghost pdv = parts.deep_view();
    let ghost cv = cur@;
    parts.push(cur);
    proof {
        assert(parts.deep_view() =~= pdv.push(cv));
        assert(pdv + seq![cv] =~= pdv.push(cv));
    }
    parts
}

/// Whether `s` contains no colon.
pub open spec fn colon_free(s: Seq<char>) -> bool {
    forall|i: int| 0 <= i < s.len() ==> s[i] != ':'
}

proof fn lemma_split_from_colon_free(s: Seq<char>, pos: int, cur: Seq<char>)
    requires
        0 <= pos <= s.len(),
        forall|i: int| pos <= i < s.len() ==> s[i] != ':',
    ensures
        spec_split_colon_from(s, pos, cur) == seq![cur + s.subrange(pos, s.len() as int)],
    decreases s.len() - pos,
{
    if pos >= s.len() {
        assert(cur + s.subrange(pos, s.len() as int) =~= cur);
    } else {
        lemma_split_from_colon_free(s, pos + 1, cur.push(s[pos]));
        assert(cur.push(s[pos]) + s.subrange(pos + 1, s.len() as int) =~= cur + s.subrange(
            pos,
            s.len() as int,
        ));
    }
}

proof fn lemma_split_from_through(s: Seq<char>, pos: int, cur: Seq<char>, j: int)
    requires
        0 <= pos <= j < s.len(),
        s[j] == ':',
        forall|i: int| pos <= i < j ==> s[i] != ':',
    ensures
        spec_split_colon_from(s, pos, cur) == seq![cur + s.subrange(pos, j)]
            + spec_split_colon_from(s, j + 1, Seq::empty()),
    decreases j - pos,
{
    if pos == j {
        assert(cur + s.subrange(pos, j) =~= cur);
    } else {
        lemma_split_from_through(s, pos + 1, cur.push(s[pos]), j);
        assert(cur.push(s[pos]) + s.subrange(pos + 1, j) =~= cur + s.subrange(pos, j));
    }
}

/// An identifier composed of three colon-separated segments splits back
/// into exactly those segments.
pub proof fn lemma_split_three_parts(a: Seq<char>, b: Seq<char>, c: Seq<char>)
    requires
        colon_free(a),
        colon_free(b),
        colon_free(c),
    ensures
        spec_split_colon(a + seq![':'] + b + seq![':'] + c) == seq![a, b, c],
{
    let s = a + seq![':'] + b + seq![':'] + c;
    let j1 = a.len() as int;
    let j2 = a.len() + 1 + b.len() as int;
    assert(s[j1] == ':');
    assert(s[j2 as int] == ':');
    assert(forall|i: int| 0 <= i < j1 ==> s[i] == a[i] && s[i] != ':');
    lemma_split_from_through(s, 0, Seq::empty(), j1);
    assert(Seq::<char>::empty() + s.subrange(0, j1) =~= a);
    assert(forall|i: int| j1 + 1 <= i < j2 ==> s[i] == b[i - j1 - 1] && s[i] != ':');
    lemma_split_from_through(s, j1 + 1, Seq::empty(), j2 as int);
    assert(Seq::<char>::empty() + s.subrange(j1 + 1, j2 as int) =~= b);
    assert(forall|i: int| j2 + 1 <= i < s.len() ==> s[i] == c[i - j2 - 1] && s[i] != ':');
    lemma_split_from_colon_free(s, j2 + 1, Seq::<char>::empty());
    assert(Seq::<char>::empty() + s.subrange(j2 + 1, s.len() as int) =~= c);
    assert(seq![a] + (seq![b] + seq![c]) =~= seq![a, b, c]);
}

// ---------------------------------------------------------------------------
// Splitting on whitespace
// ---------------------------------------------------------------------------

/// The whitespace-separated words of `s` from position `pos` on, with
/// `cur` holding the characters of the current word read so far.
pub open spec fn spec_words_from(s: Seq<char>, pos: int, cur: Seq<char>) -> Seq<Seq<char>>
    decreases s.len() - pos,
{
    if pos < 0 || pos >= s.len() {
        if cur.len() > 0 {
            seq![cur]
        } else {
            Seq::empty()
        }
    } else if is_ws_char(s[pos]) {
        if cur.len() > 0 {
            seq![cur] + spec_words_from(s, pos + 1, Seq::empty())
        } else {
            spec_words_from(s, pos + 1, Seq::empty())
        }
    } else {
        spec_words_from(s, pos + 1, cur.push(s[pos]))
    }
}

/// The whitespace-separated words of `s`: the maximal non-empty runs of
/// non-whitespace characters, in order.
pub open spec fn spec_words(s: Seq<char>) -> Seq<Seq<char>> {
    spec_words_from(s, 0, Seq::empty())
}

/// Splits `s` into its whitespace-separated words.
pub fn split_words(s: &str) -> (words: Vec<String>)
    ensures
        words.deep_view() == spec_words(s@),
{
    let n = s.unicode_len();
    let mut words: Vec<String> = Vec::new();
    let mut cur = String::new();
    let mut i: usize = 0;
    while i < n
        invariant
            i <= n,
            n == s@.len(),
            spec_words(s@) == words.deep_view() + spec_words_from(s@, i as int, cur@),
        decreases n - i,
    {
        let c = s.get_char(i);
        let ghost wdv = words.deep_view();
        let ghost cv = cur@;
        if is_whitespace_char(c) {
            if cur.unicode_len() > 0 {
                words.push(cur);
                cur = String::new();
                proof {
                    assert(words.deep_view() =~= wdv.push(cv));
                    assert(wdv + (seq![cv] + spec_words_from(s@, i + 1, Seq::empty())) =~= wdv.push(
                        cv,
                    ) + spec_words_from(s@, i + 1, Seq::empty()));
                }
            } else {
                proof {
                    assert(cv =~= Seq::<char>::empty());
                }
            }
        } else {
            push_char(&mut cur, c);
        }
        i = i + 1;
    }
    let ghost wdv = words.deep_view();
    let ghost cv = cur@;
    if cur.unicode_len() > 0 {
        words.push(cur);
        proof {
            assert(words.deep_view() =~= wdv.push(cv));
            assert(wdv + seq![cv] =~= wdv.push(cv));
        }
    } else {
        proof {
            assert(wdv + Seq::<Seq<char>>::empty() =~= wdv);
        }
    }
    words
}

// ---------------------------------------------------------------------------
// Placeholder references
// ---------------------------------------------------------------------------

/// The placeholder references of `s` from position `pos` on, scanning
/// left to right without overlap, exactly as repeated matching of the
/// pattern `[@reference]` finds them.  `inside` is the position where the
/// current candidate's reference began, if a `[@` has been entered and its
/// closing `]` not yet reached.  A reference is any non-empty run of
/// characters other than `]` standing between `[@` and `]`.
pub open spec fn spec_refs_in(s: Seq<char>, pos: int, inside: Option<int>) -> Seq<Seq<char>>
    decreases s.len() - pos,
{
    if pos < 0 || pos >= s.len() {
        Seq::empty()
    } else {
        match inside {
            Option::None => {
                if s[pos] == '[' && pos + 1 < s.len() && s[pos + 1] == '@' {
                    spec_refs_in(s, pos + 2, Option::Some(pos + 2))
                } else {
                    spec_refs_in(s, pos + 1, Option::None)
                }
            },
            Option::Some(r0) => {
                if s[pos] == ']' {
                    if pos > r0 {
                        seq![s.subrange(r0, pos)] + spec_refs_in(s, pos + 1, Option::None)
                    } else {
                        spec_refs_in(s, pos + 1, Option::None)
                    }
                } else {
                    spec_refs_in(s, pos + 1, Option::Some(r0))
                }
            },
        }
    }
}

/// The placeholder references of `s`, in scan order.
pub open spec fn spec_refs(s: Seq<char>) -> Seq<Seq<char>> {
    spec_refs_in(s, 0, Option::None)
}

/// Collects the placeholder references of `s`, in scan order.
pub fn find_refs(s: &str) -> (refs: Vec<String>)
    ensures
        refs.deep_view() == spec_refs(s@),
{
    let n = s.unicode_len();
    let mut refs: Vec<String> = Vec::new();
    let mut pos: usize = 0;
    let mut inside: bool = false;
    let mut r0: usize = 0;
    while pos < n
        invariant
            pos <= n,
            n == s@.len(),
            inside ==> r0 <= pos,
            spec_refs(s@) == refs.deep_view() + spec_refs_in(
                s@,
                pos as int,
                if inside {
                    Option::Some(r0 as int)
                } else {
                    Option::None
                },
            ),
        decreases n - pos,
    {
        let c = s.get_char(pos);
        if !inside {
            if c == '[' && pos + 1 < n && s.get_char(pos + 1) == '@' {
                inside = true;
                r0 = pos + 2;
                pos = pos + 2;
            } else {
                pos = pos + 1;
            }
        } else {
            if c == ']' {
                if pos > r0 {
                    let piece = s.substring_char(r0, pos);
                    let ghost rdv = refs.deep_view();
                    let ghost rv = piece@;
                    refs.push(piece.to_owned());
                    proof {
                        assert(refs.deep_view() =~= rdv.push(rv));
                        assert(rdv + (seq![rv] + spec_refs_in(s@, pos + 1, Option::None))
                            =~= rdv.push(rv) + spec_refs_in(s@, pos + 1, Option::None));
                    }
                }
                inside = false;
                pos = pos + 1;
            } else {
                pos = pos + 1;
            }
        }
    }
    proof {
        assert(refs.deep_view() + Seq::<Seq<char>>::empty() =~= refs.deep_view());
    }
    refs
}

/// Whether some element of `v` reads as `s`.
pub fn contains_str(v: &Vec<String>, s: &str) -> (r: bool)
    ensures
        r == v.deep_view().contains(s@),
{
    let mut i: usize = 0;
    while i < v.len()
        invariant
            i <= v@.len(),
            forall|j: int| 0 <= j < i ==> v.deep_view()[j] != s@,
        decreases v@.len() - i,
    {
        if str_eq(v[i].as_str(), s) {
            assert(v.deep_view()[i as int] == s@);
            return true;
        }
        i = i + 1;
    }
    assert(forall|j: int| 0 <= j < v.deep_view().len() ==> v.deep_view()[j] != s@);
    false
}

// ---------------------------------------------------------------------------
// Joining
// ---------------------------------------------------------------------------

/// The words joined with a single space between neighbours.
pub open spec fn spec_join_space(ws: Seq<Seq<char>>) -> Seq<char>
    decreases ws.len(),
{
    if ws.len() == 0 {
        Seq::empty()
    } else if ws.len() == 1 {
        ws[0]
    } else {
        spec_join_space(ws.drop_last()) + seq![' '] + ws.last()
    }
}

// ---------------------------------------------------------------------------
// Word cleaning
// ---------------------------------------------------------------------------

/// `s` without its leading run of non-kept characters.
pub open spec fn spec_trim_front(s: Seq<char>) -> Seq<char>
    decreases s.len(),
{
    if s.len() > 0 && !is_keep_char(s[0]) {
        spec_trim_front(s.subrange(1, s.len() as int))
    } else {
        s
    }
}

/// `s` without its trailing run of non-kept characters.
pub open spec fn spec_trim_back(s: Seq<char>) -> Seq<char>
    decreases s.len(),
{
    if s.len() > 0 && !is_keep_char(s.last()) {
        spec_trim_back(s.drop_last())
    } else {
        s
    }
}

/// A word cleaned for placeholder matching: leading and trailing characters
/// are stripped unless they are alphanumeric or one of `@`, `[`, `]`.
pub open spec fn spec_clean(s: Seq<char>) -> Seq<char> {
    spec_trim_back(spec_trim_front(s))
}

proof fn lemma_trim_front_range(s: Seq<char>, a: int)
    requires
        0 <= a <= s.len(),
        forall|i: int| 0 <= i < a ==> !is_keep_char(#[trigger] s[i]),
        a < s.len() ==> is_keep_char(s[a]),
    ensures
        spec_trim_front(s) == s.subrange(a, s.len() as int),
    decreases a,
{
    if a == 0 {
        assert(s.subrange(0, s.len() as int) =~= s);
    } else {
        let t = s.subrange(1, s.len() as int);
        lemma_trim_front_range(t, a - 1);
        assert(t.subrange(a - 1, t.len() as int) =~= s.subrange(a, s.len() as int));
    }
}

proof fn lemma_trim_back_range(s: Seq<char>, b: int)
    requires
        0 <= b <= s.len(),
        forall|i: int| b <= i < s.len() ==> !is_keep_char(#[trigger] s[i]),
        b > 0 ==> is_keep_char(s[b - 1]),
    ensures
        spec_trim_back(s) == s.subrange(0, b),
    decreases s.len() - b,
{
    if b == s.len() {
        assert(s.subrange(0, b) =~= s);
    } else {
        let t = s.drop_last();
        lemma_trim_back_range(t, b);
        assert(t.subrange(0, b) =~= s.subrange(0, b));
    }
}

/// Cleans a word: strips leading and trailing characters that are neither
/// alphanumeric nor one of `@`, `[`, `]`.
pub fn clean_word_str(word: &str) -> (r: &str)
    ensures
        r@ == spec_clean(word@),
{
    let n = word.unicode_len();
    let mut a: usize = 0;
    let mut found_front: bool = false;
    while a < n && !found_front
        invariant
            a <= n,
            n == word@.len(),
            forall|i: int| 0 <= i < a ==> !is_keep_char(#[trigger] word@[i]),
            found_front ==> a < n && is_keep_char(word@[a as int]),
        decreases n - a + (if found_front { 0int } else { 1int }),
    {
        if keep_char(word.get_char(a)) {
            found_front = true;
        } else {
            a = a + 1;
        }
    }
    proof {
        lemma_trim_front_range(word@, a as int);
    }
    if !found_front {
        proof {
            assert(word@.subrange(a as int, n as int).len() == 0);
        }
        let r = word.substring_char(a, n);
        return r;
    }
    let mut b: usize = n;
    let mut found_back: bool = false;
    while b > a + 1 && !found_back
        invariant
            a < b <= n,
            n == word@.len(),
            forall|i: int| b <= i < n ==> !is_keep_char(#[trigger] word@[i]),
            found_back ==> is_keep_char(word@[b - 1]),
        decreases b + (if found_back { 0int } else { 1int }),
    {
        if keep_char(word.get_char(b - 1)) {
            found_back = true;
        } else {
            b = b - 1;
        }
    }
    // here word@[b-1] is kept: either directly, or b == a + 1 with word@[a]
    // kept, so the trailing trim of the front-trimmed word stops at b
    proof {
        let t = word@.subrange(a as int, n as int);
        lemma_trim_back_range(t, b - a);
        assert(t.subrange(0, b - a) =~= word@.subrange(a as int, b as int));
    }
    word.substring_char(a, b)
}

} // verus!

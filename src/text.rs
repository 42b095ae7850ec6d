//! Character-level helpers: trimming, previews, containment and decimal
//! rendering, each stated over the characters of a string.

use vstd::prelude::*;
use vstd::utf8::encode_utf8;

verus! {

/// The characters with the Unicode `White_Space` property.
pub open spec fn is_white(c: char) -> bool {
    ('\u{9}' <= c && c <= '\u{d}') || c == ' ' || c == '\u{85}' || c == '\u{a0}'
        || c == '\u{1680}' || ('\u{2000}' <= c && c <= '\u{200a}') || c == '\u{2028}'
        || c == '\u{2029}' || c == '\u{202f}' || c == '\u{205f}' || c == '\u{3000}'
}

pub open spec fn trim_start_spec(s: Seq<char>) -> Seq<char>
    decreases s.len(),
{
    if s.len() > 0 && is_white(s[0]) {
        trim_start_spec(s.drop_first())
    } else {
        s
    }
}

pub open spec fn trim_end_spec(s: Seq<char>) -> Seq<char>
    decreases s.len(),
{
    if s.len() > 0 && is_white(s.last()) {
        trim_end_spec(s.drop_last())
    } else {
        s
    }
}

/// `s` without its leading and trailing white space.
pub open spec fn trimmed(s: Seq<char>) -> Seq<char> {
    trim_end_spec(trim_start_spec(s))
}

/// `s` without any double quote.
pub open spec fn without_quotes(s: Seq<char>) -> Seq<char> {
    s.filter(|c: char| c != '"')
}

/// The first `n` characters of `s` (all of them when there are fewer).
pub open spec fn first_chars(s: Seq<char>, n: nat) -> Seq<char> {
    if s.len() <= n {
        s
    } else {
        s.take(n as int)
    }
}

pub open spec fn flatten_newline(c: char) -> char {
    if c == '\n' {
        ' '
    } else {
        c
    }
}

/// `s` with each line feed replaced by a space.
pub open spec fn flat(s: Seq<char>) -> Seq<char> {
    s.map_values(|c: char| flatten_newline(c))
}

pub open spec fn decimal_digit(d: nat) -> char {
    (('0' as u8) + (d as u8)) as char
}

/// The decimal digits of `n`, without leading zeros.
pub open spec fn decimal_of(n: nat) -> Seq<char>
    decreases n,
{
    if n < 10 {
        seq![decimal_digit(n)]
    } else {
        decimal_of(n / 10) + seq![decimal_digit(n % 10)]
    }
}

/// Relies on `str::trim`: removes leading and trailing characters with the
/// Unicode `White_Space` property.
#[verifier::external_body]
pub(crate) fn trim(s: &str) -> (r: String)
    ensures
        r@ == trimmed(s@),
{
    s.trim().to_string()
}

/// Relies on `str::replace`: every double quote replaced by nothing.
#[verifier::external_body]
pub(crate) fn strip_quotes(s: &str) -> (r: String)
    ensures
        r@ == without_quotes(s@),
{
    s.replace('"', "")
}

/// Relies on `usize`'s `ToString`: its decimal digits.
#[verifier::external_body]
pub(crate) fn decimal(n: usize) -> (r: String)
    ensures
        r@ == decimal_of(n as nat),
{
    n.to_string()
}

/// A byte that belongs to a word: an ASCII letter or digit, or any byte of
/// a non-ASCII character.
pub open spec fn is_word_byte(b: u8) -> bool {
    (0x30 <= b && b <= 0x39) || (0x41 <= b && b <= 0x5a) || (0x61 <= b && b <= 0x7a) || 0x80 <= b
}

/// ASCII upper case folded to lower case.
pub open spec fn fold_byte(b: u8) -> u8 {
    if 0x41 <= b && b <= 0x5a {
        (b + 32) as u8
    } else {
        b
    }
}

/// The words of `s`, case-folded, each followed by one space (the last one
/// only where `s` ends in a separator).
pub open spec fn words(s: Seq<u8>) -> Seq<u8>
    decreases s.len(),
{
    if s.len() == 0 {
        Seq::empty()
    } else {
        let w = words(s.drop_last());
        if is_word_byte(s.last()) {
            w.push(fold_byte(s.last()))
        } else if w.len() > 0 && w.last() != 0x20u8 {
            w.push(0x20u8)
        } else {
            w
        }
    }
}

/// `needle` occurs in `hay` as a contiguous run of bytes.
pub open spec fn bytes_occur(needle: Seq<u8>, hay: Seq<u8>) -> bool {
    exists|i: int| 0 <= i && i + needle.len() <= hay.len() && #[trigger] hay.subrange(i, i + needle.len()) == needle
}

/// The words of a phrase, space-separated, with a space on either side.
pub open spec fn phrase_pattern(q: Seq<char>) -> Seq<u8> {
    let w = words(encode_utf8(q));
    let p = if w.len() > 0 && w.last() == 0x20u8 { w.drop_last() } else { w };
    seq![0x20u8] + p + seq![0x20u8]
}

/// The words of a text with a space on either side.
pub open spec fn text_pattern(t: Seq<char>) -> Seq<u8> {
    seq![0x20u8] + words(encode_utf8(t)) + seq![0x20u8]
}

/// The phrase `q` has a word, and its words occur in `t` in a row, whole,
/// with ASCII case ignored.
pub open spec fn phrase_match(q: Seq<char>, t: Seq<char>) -> bool {
    phrase_pattern(q).len() > 2 && bytes_occur(phrase_pattern(q), text_pattern(t))
}

/// A space, the words of `s`, and (where `phrase` holds, in place of a
/// trailing one) a space.
fn padded_words(s: &str, phrase: bool) -> (r: Vec<u8>)
    ensures
        phrase ==> r@ == phrase_pattern(s@),
        !phrase ==> r@ == text_pattern(s@),
{
    let b = s.as_bytes();
    let ghost bs = encode_utf8(s@);
    let mut r: Vec<u8> = Vec::new();
    r.push(0x20u8);
    let mut i: usize = 0;
    while i < b.len()
        invariant
            b@ == bs,
            i <= b@.len(),
            r@ == seq![0x20u8] + words(bs.take(i as int)),
        decreases b@.len() - i,
    {
        let c = b[i];
        proof {
            assert(bs.take(i + 1).drop_last() =~= bs.take(i as int));
            assert(bs.take(i + 1).last() == c);
        }
        let ghost w = words(bs.take(i as int));
        if (0x30 <= c && c <= 0x39) || (0x41 <= c && c <= 0x5a) || (0x61 <= c && c <= 0x7a) || 0x80 <= c {
            let f: u8 = if 0x41 <= c && c <= 0x5a { c + 32 } else { c };
            r.push(f);
            proof {
                assert(r@ =~= seq![0x20u8] + w.push(fold_byte(c)));
            }
        } else if r.len() > 1 && r[r.len() - 1] != 0x20u8 {
            r.push(0x20u8);
            proof {
                assert(r@ =~= seq![0x20u8] + w.push(0x20u8));
            }
        } else {
            proof {
                assert(w.len() > 0 ==> w.last() == r@.last());
            }
        }
        i = i + 1;
    }
    proof {
        assert(bs.take(b@.len() as int) =~= bs);
    }
    let ghost w = words(bs);
    if phrase && r.len() > 1 && r[r.len() - 1] == 0x20u8 {
        r.pop();
        proof {
            assert(r@ =~= seq![0x20u8] + w.drop_last());
        }
    }
    r.push(0x20u8);
    proof {
        assert(r@ =~= if phrase { phrase_pattern(s@) } else { text_pattern(s@) });
    }
    r
}

/// Whether `needle` occurs in `hay`.
fn occurs(needle: &Vec<u8>, hay: &Vec<u8>) -> (r: bool)
    ensures
        r == bytes_occur(needle@, hay@),
{
    let nl = needle.len();
    let hl = hay.len();
    if nl > hl {
        return false;
    }
    let last = hl - nl;
    let mut i: usize = 0;
    while i <= last
        invariant
            hl == hay@.len(),
            nl == needle@.len(),
            needle@.len() <= hay@.len(),
            last == hay@.len() - needle@.len(),
            forall|k: int| 0 <= k < i ==> #[trigger] hay@.subrange(k, k + needle@.len()) != needle@,
        decreases last + 1 - i,
    {
        let mut j: usize = 0;
        while j < nl && hay[i + j] == needle[j]
            invariant
                i <= last,
                hl == hay@.len(),
                nl == needle@.len(),
                needle@.len() <= hay@.len(),
                last == hay@.len() - needle@.len(),
                j <= needle@.len(),
                forall|k: int| 0 <= k < j ==> hay@[i + k] == needle@[k],
            decreases needle@.len() - j,
        {
            j = j + 1;
        }
        if j == nl {
            proof {
                assert(hay@.subrange(i as int, i + needle@.len()) =~= needle@);
            }
            return true;
        }
        proof {
            assert(hay@.subrange(i as int, i + needle@.len())[j as int] != needle@[j as int]);
        }
        if i == last {
            return false;
        }
        i = i + 1;
    }
    false
}

/// Whether the phrase `query` occurs in `text` (see `phrase_match`).
pub fn phrase_matches(query: &str, text: &str) -> (r: bool)
    ensures
        r == phrase_match(query@, text@),
{
    let p = padded_words(query, true);
    if p.len() <= 2 {
        return false;
    }
    let t = padded_words(text, false);
    occurs(&p, &t)
}

/// The first `n` characters of `s`, each line feed turned into a space when
/// `flatten` holds.
pub fn preview_chars(s: &str, n: usize, flatten: bool) -> (r: String)
    ensures
        flatten ==> r@ == flat(first_chars(s@, n as nat)),
        !flatten ==> r@ == first_chars(s@, n as nat),
{
    let len = s.unicode_len();
    let k: usize = if len < n { len } else { n };
    let mut r = String::new();
    let ghost want = first_chars(s@, n as nat);
    let mut i: usize = 0;
    while i < k
        invariant
            k <= len,
            len == s@.len(),
            i <= k,
            want.len() == k,
            forall|j: int| 0 <= j < k ==> want[j] == s@[j],
            flatten ==> r@ == flat(want.take(i as int)),
            !flatten ==> r@ == want.take(i as int),
        decreases k - i,
    {
        let piece = s.substring_char(i, i + 1);
        proof {
            assert(piece@ =~= seq![s@[i as int]]);
        }
        if flatten && s.get_char(i) == '\n' {
            r.append(" ");
            proof {
                reveal_strlit(" ");
            }
        } else {
            r.append(piece);
        }
        proof {
            if flatten {
                assert(flat(want.take(i + 1)) =~= flat(want.take(i as int)) + seq![flatten_newline(s@[i as int])]);
            } else {
                assert(want.take(i + 1) =~= want.take(i as int) + seq![s@[i as int]]);
            }
        }
        i = i + 1;
    }
    proof {
        assert(want.take(k as int) =~= want);
    }
    r
}

} // verus!

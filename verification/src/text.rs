//! Character-level text helpers shared by the layout code.

use unicode_width::UnicodeWidthChar;
use vstd::prelude::*;

verus! {

/// Width that the lookup tables of `unicode_width` give a character from
/// U+00A0 on.
pub uninterp spec fn table_char_width(c: char) -> usize;

/// Display width that `unicode_width` assigns to one character: control
/// characters (below U+0020 and from U+007F to U+009F) have none, printable
/// ASCII is one column, everything else comes from the tables.
pub open spec fn char_width(c: char) -> Option<usize> {
    let cp = c as u32;
    if cp < 0x20 {
        None
    } else if cp < 0x7f {
        Some(1)
    } else if cp < 0xa0 {
        None
    } else {
        Some(table_char_width(c))
    }
}

/// Calls `UnicodeWidthChar::width`. Its source answers control characters
/// with `None` and printable ASCII with one column before it consults its
/// tables, and no character is wider than three columns (`U+17D8` is the
/// only three-column one); the contract claims those facts and names the
/// table value.
#[verifier::external_body]
pub(crate) fn char_display_width(c: char) -> (w: Option<usize>)
    ensures
        w == char_width(c),
        (c as u32) >= 0xa0 ==> w == Some(table_char_width(c)),
        w matches Some(n) ==> n <= 3,
{
    UnicodeWidthChar::width(c)
}

/// Calls `String::push`, which appends the character at the end; the
/// contract claims just that.
#[verifier::external_body]
pub(crate) fn push_char(s: &mut String, c: char)
    ensures
        final(s)@ == old(s)@.push(c),
{
    s.push(c)
}

/// Copies the characters of `s` into a new string, one at a time.
pub fn copy_chars(s: &str) -> (out: String)
    ensures
        out@ == s@,
{
    let mut out = String::new();
    for c in it: s.chars()
        invariant
            out@ == it.seq().take(it.index() as int),
            it.seq() == s@,
    {
        push_char(&mut out, c);
        proof {
            assert(it.seq().take(it.index() + 1) =~= it.seq().take(it.index() as int).push(c));
        }
    }
    out
}

} // verus!

verus! {

/// Display width that `unicode_width` assigns to a string that is not all
/// printable ASCII.
pub uninterp spec fn text_width(s: Seq<char>) -> usize;

pub open spec fn is_printable_ascii(s: Seq<char>) -> bool {
    forall|i: int| 0 <= i < s.len() ==> 0x20 <= #[trigger] (s[i] as u32) && (s[i] as u32) < 0x7f
}

/// Display width that `unicode_width` assigns to a whole string: one column
/// per character for printable ASCII, named otherwise.
pub open spec fn str_width(s: Seq<char>) -> usize {
    if is_printable_ascii(s) { s.len() as usize } else { text_width(s) }
}

/// Calls `UnicodeWidthStr::width`. Its source sums one column per
/// character below U+00A1 unless a carriage return precedes a line feed or
/// an emoji variation selector follows, so a printable ASCII string is as
/// wide as it is long; other strings' widths are named.
#[verifier::external_body]
pub(crate) fn str_display_width(s: &str) -> (w: usize)
    ensures
        w == str_width(s@),
        !is_printable_ascii(s@) ==> w == text_width(s@),
{
    unicode_width::UnicodeWidthStr::width(s)
}

/// Columns that a character takes when laid out: unknown widths count as one.
pub open spec fn char_cells_or_one(c: char) -> usize {
    match char_width(c) {
        Some(w) => w,
        None => 1,
    }
}

/// `n` spaces.
pub open spec fn spaces_seq(n: nat) -> Seq<char> {
    Seq::new(n, |_i: int| ' ')
}

/// A string of `n` spaces.
pub fn spaces(n: usize) -> (s: String)
    ensures
        s@ == spaces_seq(n as nat),
{
    let mut s = String::new();
    let mut i: usize = 0;
    while i < n
        invariant
            i <= n,
            s@ == spaces_seq(i as nat),
        decreases n - i,
    {
        push_char(&mut s, ' ');
        proof {
            assert(spaces_seq((i + 1) as nat) =~= spaces_seq(i as nat).push(' '));
        }
        i = i + 1;
    }
    s
}

/// A string holding exactly the given characters.
pub fn string_from_chars(chars: &Vec<char>) -> (s: String)
    ensures
        s@ == chars@,
{
    let mut s = String::new();
    let mut i: usize = 0;
    while i < chars.len()
        invariant
            i <= chars@.len(),
            s@ == chars@.take(i as int),
        decreases chars@.len() - i,
    {
        push_char(&mut s, chars[i]);
        proof {
            assert(chars@.take(i + 1) =~= chars@.take(i as int).push(chars@[i as int]));
        }
        i = i + 1;
    }
    proof {
        assert(chars@.take(chars@.len() as int) =~= chars@);
    }
    s
}

/// The characters of a string, in order.
pub fn chars_of(s: &str) -> (v: Vec<char>)
    ensures
        v@ == s@,
{
    let mut v: Vec<char> = Vec::new();
    for c in it: s.chars()
        invariant
            v@ == it.seq().take(it.index() as int),
            it.seq() == s@,
    {
        v.push(c);
        proof {
            assert(it.seq().take(it.index() + 1) =~= it.seq().take(it.index() as int).push(c));
        }
    }
    v
}

} // verus!

verus! {

/// The pieces of `s` between newline characters, as `str::split('\n')`
/// yields them: one more piece than there are newlines.
pub open spec fn split_newlines(s: Seq<char>) -> Seq<Seq<char>>
    decreases s.len(),
{
    if s.len() == 0 {
        seq![Seq::<char>::empty()]
    } else {
        let r = split_newlines(s.drop_last());
        if s.last() == '\n' {
            r.push(Seq::empty())
        } else {
            r.update(r.len() - 1, r.last().push(s.last()))
        }
    }
}

pub proof fn lemma_split_newlines_nonempty(s: Seq<char>)
    ensures
        split_newlines(s).len() >= 1,
    decreases s.len(),
{
    if s.len() > 0 {
        lemma_split_newlines_nonempty(s.drop_last());
    }
}

pub open spec fn strings_view(v: Seq<String>) -> Seq<Seq<char>> {
    Seq::new(v.len(), |i: int| v[i]@)
}

/// The pieces of `s` between newline characters.
pub fn split_on_newlines(s: &str) -> (pieces: Vec<String>)
    ensures
        strings_view(pieces@) == split_newlines(s@),
{
    let mut pieces: Vec<String> = Vec::new();
    let mut current = String::new();
    for c in it: s.chars()
        invariant
            it.seq() == s@,
            strings_view(pieces@).push(current@) == split_newlines(it.seq().take(it.index() as int)),
    {
        let ghost before = strings_view(pieces@).push(current@);
        proof {
            let k = it.index();
            assert(it.seq().take(k + 1).drop_last() =~= it.seq().take(k as int));
        }
        if c == '\n' {
            let mut done = String::new();
            std::mem::swap(&mut done, &mut current);
            pieces.push(done);
            proof {
                assert(strings_view(pieces@).push(current@) =~= before.push(Seq::empty()));
            }
        } else {
            push_char(&mut current, c);
            proof {
                assert(strings_view(pieces@).push(current@) =~= before.update(
                    before.len() - 1,
                    before.last().push(c),
                ));
            }
        }
    }
    pieces.push(current);
    proof {
        assert(s@.take(s@.len() as int) =~= s@);
        assert(strings_view(pieces@) =~= split_newlines(s@));
    }
    pieces
}

pub open spec fn digit_char(d: nat) -> char {
    if d == 0 { '0' }
    else if d == 1 { '1' }
    else if d == 2 { '2' }
    else if d == 3 { '3' }
    else if d == 4 { '4' }
    else if d == 5 { '5' }
    else if d == 6 { '6' }
    else if d == 7 { '7' }
    else if d == 8 { '8' }
    else { '9' }
}

/// Decimal digits of `n`, most significant first, without leading zeros.
pub open spec fn decimal_seq(n: nat) -> Seq<char>
    decreases n,
{
    if n < 10 {
        seq![digit_char(n)]
    } else {
        decimal_seq(n / 10).push(digit_char(n % 10))
    }
}

fn digit(d: u64) -> (c: char)
    requires
        d < 10,
    ensures
        c == digit_char(d as nat),
{
    if d == 0 { '0' }
    else if d == 1 { '1' }
    else if d == 2 { '2' }
    else if d == 3 { '3' }
    else if d == 4 { '4' }
    else if d == 5 { '5' }
    else if d == 6 { '6' }
    else if d == 7 { '7' }
    else if d == 8 { '8' }
    else { '9' }
}

/// Appends the decimal digits of `n` to `s`.
pub fn push_decimal(s: &mut String, n: u64)
    ensures
        final(s)@ == old(s)@ + decimal_seq(n as nat),
    decreases n,
{
    if n < 10 {
        push_char(s, digit(n));
        proof {
            assert(old(s)@ + decimal_seq(n as nat) =~= old(s)@.push(digit_char(n as nat)));
        }
    } else {
        push_decimal(s, n / 10);
        push_char(s, digit(n % 10));
        proof {
            assert(old(s)@ + decimal_seq(n as nat) =~= old(s)@ + decimal_seq((n / 10) as nat) + seq![
                digit_char((n % 10) as nat),
            ]);
        }
    }
}

} // verus!

verus! {

/// Whether `c` has the Unicode `White_Space` property, the property that
/// `char::is_whitespace` tests: tab to carriage return, space, next line,
/// no-break space, ogham space mark, the spaces from en quad to hair space,
/// line and paragraph separator, narrow no-break space, medium
/// mathematical space and ideographic space.
pub open spec fn is_white_space(c: char) -> bool {
    let cp = c as u32;
    ||| 0x09 <= cp && cp <= 0x0d
    ||| cp == 0x20
    ||| cp == 0x85
    ||| cp == 0xa0
    ||| cp == 0x1680
    ||| 0x2000 <= cp && cp <= 0x200a
    ||| cp == 0x2028
    ||| cp == 0x2029
    ||| cp == 0x202f
    ||| cp == 0x205f
    ||| cp == 0x3000
}

/// Whether `c` is white space, as `char::is_whitespace` answers.
pub fn char_is_whitespace(c: char) -> (b: bool)
    ensures
        b == is_white_space(c),
{
    let cp = c as u32;
    (0x09 <= cp && cp <= 0x0d) || cp == 0x20 || cp == 0x85 || cp == 0xa0 || cp == 0x1680
        || (0x2000 <= cp && cp <= 0x200a) || cp == 0x2028 || cp == 0x2029 || cp == 0x202f
        || cp == 0x205f || cp == 0x3000
}

} // verus!

verus! {

/// `needle` occurs in `haystack` as a contiguous run.
pub open spec fn seq_contains(haystack: Seq<char>, needle: Seq<char>) -> bool {
    exists|i: int| 0 <= i && i + needle.len() <= haystack.len() && #[trigger] haystack.subrange(i, i + needle.len()) == needle
}

/// Whether `needle` occurs in `haystack`.
pub fn contains_text(haystack: &str, needle: &str) -> (found: bool)
    ensures
        found == seq_contains(haystack@, needle@),
{
    let h = chars_of(haystack);
    let n = chars_of(needle);
    if n.len() > h.len() {
        proof {
            assert forall|i: int| 0 <= i && i + n@.len() <= h@.len() implies #[trigger] h@.subrange(i, i + n@.len()) != n@ by {}
        }
        return false;
    }
    let last = h.len() - n.len();
    let mut i: usize = 0;
    while i <= last
        invariant
            h@ == haystack@,
            n@ == needle@,
            last == h@.len() - n@.len(),
            h@.len() <= usize::MAX,
            i <= last + 1,
            forall|k: int| 0 <= k < i ==> #[trigger] h@.subrange(k, k + n@.len()) != n@,
        decreases last + 1 - i,
    {
        let mut j: usize = 0;
        let mut same = true;
        while j < n.len()
            invariant
                h@ == haystack@,
                n@ == needle@,
                i <= last,
                last == h@.len() - n@.len(),
                j <= n@.len(),
                i + n@.len() <= h@.len(),
                h@.len() <= usize::MAX,
                same == (forall|m: int| 0 <= m < j ==> h@[i + m] == n@[m]),
            decreases n@.len() - j,
        {
            if h[i + j] != n[j] {
                same = false;
            }
            j = j + 1;
        }
        if same {
            proof {
                assert(h@.subrange(i as int, i + n@.len()) =~= n@);
            }
            return true;
        }
        proof {
            let m = choose|m: int| 0 <= m < n@.len() && h@[i + m] != n@[m];
            assert(h@.subrange(i as int, i + n@.len())[m] != n@[m]);
        }
        if i == last {
            return false;
        }
        i = i + 1;
    }
    false
}

/// Lower-case form of a string as `str::to_lowercase` computes it.
pub uninterp spec fn lowercase(s: Seq<char>) -> Seq<char>;

/// Every character is ASCII.
pub open spec fn is_ascii_text(s: Seq<char>) -> bool {
    forall|i: int| 0 <= i < s.len() ==> (#[trigger] s[i] as u32) < 0x80
}

/// The lower-case form of an ASCII character: `A` to `Z` become `a` to
/// `z`, every other character stays.
pub open spec fn ascii_lower_char(c: char) -> char {
    if 0x41 <= (c as u32) && (c as u32) <= 0x5a { ((c as u32) + 0x20) as char } else { c }
}

/// Calls `str::to_lowercase`. Unicode lower-cases each of `A` to `Z` to
/// the matching small letter and leaves every other ASCII character as it
/// is, so an ASCII string keeps its length and is mapped character by
/// character; the result for other strings is named, not described.
#[verifier::external_body]
pub(crate) fn to_lowercase(s: &str) -> (lower: String)
    ensures
        lower@ == lowercase(s@),
        is_ascii_text(s@) ==> lower@ == Seq::new(s@.len(), |i: int| ascii_lower_char(s@[i])),
{
    s.to_lowercase()
}

} // verus!

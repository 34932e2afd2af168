use vstd::prelude::*;
use vstd::string::{StrSliceExecFns, StringExecFns};

verus! {

/// The prefix of a poster's address; the relative path follows it directly.
pub open spec fn poster_url(path: Seq<char>) -> Seq<char> {
    "https://image.tmdb.org/t/p/w600_and_h900_bestv2"@ + path
}

/// The prefix of a backdrop's address, which ends in a slash of its own.
pub open spec fn backdrop_url(path: Seq<char>) -> Seq<char> {
    "https://image.tmdb.org/t/p/original/"@ + path
}

/// The topic on which a library's events are published.
pub open spec fn library_topic(library_id: int) -> Seq<char> {
    "/events/library/"@ + signed_decimal(library_id)
}

pub open spec fn digit_char(d: nat) -> char {
    if d == 0 { '0' } else if d == 1 { '1' } else if d == 2 { '2' } else if d == 3 { '3' }
    else if d == 4 { '4' } else if d == 5 { '5' } else if d == 6 { '6' } else if d == 7 { '7' }
    else if d == 8 { '8' } else { '9' }
}

/// The decimal digits of `n`, most significant first, without leading zeros.
pub open spec fn decimal(n: nat) -> Seq<char>
    decreases n,
{
    if n < 10 {
        seq![digit_char(n)]
    } else {
        decimal(n / 10).push(digit_char(n % 10))
    }
}

/// The decimal text of an integer, with a minus sign when it is negative.
pub open spec fn signed_decimal(n: int) -> Seq<char> {
    if n < 0 { seq!['-'] + decimal((-n) as nat) } else { decimal(n as nat) }
}

fn digit_str(d: u32) -> (r: &'static str)
    requires
        d < 10,
    ensures
        r@ == seq![digit_char(d as nat)],
{
    proof {
        reveal_strlit("0"); reveal_strlit("1"); reveal_strlit("2"); reveal_strlit("3");
        reveal_strlit("4"); reveal_strlit("5"); reveal_strlit("6"); reveal_strlit("7");
        reveal_strlit("8"); reveal_strlit("9");
    }
    if d == 0 { "0" } else if d == 1 { "1" } else if d == 2 { "2" } else if d == 3 { "3" }
    else if d == 4 { "4" } else if d == 5 { "5" } else if d == 6 { "6" } else if d == 7 { "7" }
    else if d == 8 { "8" } else { "9" }
}

fn append_decimal(n: u32, out: &mut String)
    ensures
        final(out)@ == old(out)@ + decimal(n as nat),
    decreases n,
{
    if n >= 10 {
        append_decimal(n / 10, out);
    }
    let d = digit_str(n % 10);
    out.append(d);
    proof {
        if n >= 10 {
            assert(decimal(n as nat) == decimal((n / 10) as nat).push(digit_char((n % 10) as nat)));
        }
    }
    assert(final(out)@ =~= old(out)@ + decimal(n as nat));
}

/// The decimal text of `n`.
pub fn decimal_text(n: i32) -> (r: String)
    ensures
        r@ == signed_decimal(n as int),
{
    let mut out = String::new();
    let magnitude: u32 = if n < 0 {
        if n == i32::MIN { 2147483648u32 } else { (-n) as u32 }
    } else {
        n as u32
    };
    if n < 0 {
        out.append("-");
        proof { reveal_strlit("-"); }
    }
    append_decimal(magnitude, &mut out);
    assert(out@ =~= signed_decimal(n as int));
    out
}

/// The address of a poster from its path relative to the image host.
pub fn poster_address(path: &String) -> (r: String)
    ensures
        r@ == poster_url(path@),
{
    String::from_str("https://image.tmdb.org/t/p/w600_and_h900_bestv2").concat(path.as_str())
}

/// The address of a backdrop from its path relative to the image host.
pub fn backdrop_address(path: &String) -> (r: String)
    ensures
        r@ == backdrop_url(path@),
{
    String::from_str("https://image.tmdb.org/t/p/original/").concat(path.as_str())
}

/// The topic of the events of library `library_id`.
pub fn topic_for(library_id: i32) -> (r: String)
    ensures
        r@ == library_topic(library_id as int),
{
    String::from_str("/events/library/").concat(decimal_text(library_id).as_str())
}

pub open spec fn is_ascii_digit(c: char) -> bool {
    '0' <= c <= '9'
}

/// The number of digits that stand right before position `i` of `s`.
pub open spec fn digit_run(s: Seq<char>, i: int) -> nat
    decreases i,
{
    if i <= 0 || i > s.len() || !is_ascii_digit(s[i - 1]) {
        0
    } else {
        digit_run(s, i - 1) + 1
    }
}

/// A character outside every block that holds a non-ASCII decimal digit:
/// below U+0660 (the first of them), or among the CJK characters
/// U+3040..=U+9FFF, or the Hangul syllables U+AC00..=U+D7AF.
pub open spec fn digit_free_char(c: char) -> bool {
    let u = c as u32;
    u < 0x660 || (0x3040 <= u && u <= 0x9FFF) || (0xAC00 <= u && u <= 0xD7AF)
}

/// A file name whose characters hold no non-ASCII decimal digit and which
/// has no run of more than nine ASCII digits.
pub open spec fn parser_safe(s: Seq<char>) -> bool {
    &&& forall|i: int| 0 <= i < s.len() ==> digit_free_char(#[trigger] s[i])
    &&& forall|i: int| 0 <= i <= s.len() ==> #[trigger] digit_run(s, i) <= 9
}

/// Whether `s` is a file name that the name parser may be handed.
pub fn is_parser_safe(s: &str) -> (r: bool)
    ensures
        r == parser_safe(s@),
{
    let n = s.unicode_len();
    let mut i: usize = 0;
    let mut run: usize = 0;
    while i < n
        invariant
            n == s@.len(),
            0 <= i <= n,
            run == digit_run(s@, i as int),
            run <= 9,
            forall|k: int| 0 <= k < i ==> digit_free_char(#[trigger] s@[k]),
            forall|k: int| 0 <= k <= i ==> #[trigger] digit_run(s@, k) <= 9,
        decreases n - i,
    {
        let c = s.get_char(i);
        let u = c as u32;
        if !(u < 0x660 || (0x3040 <= u && u <= 0x9FFF) || (0xAC00 <= u && u <= 0xD7AF)) {
            return false;
        }
        if '0' <= c && c <= '9' {
            run = run + 1;
        } else {
            run = 0;
        }
        i = i + 1;
        assert(digit_run(s@, i as int) == run);
        if run > 9 {
            return false;
        }
    }
    true
}

/// `s` ends with `suffix`.
pub open spec fn ends_with(s: Seq<char>, suffix: Seq<char>) -> bool {
    suffix.len() <= s.len() && s.subrange(s.len() - suffix.len(), s.len() as int) == suffix
}

/// A name that the scan takes for a media file: not hidden, with the
/// extension `mkv`, `mp4` or `avi` (letter case counts).
pub open spec fn media_name(s: Seq<char>) -> bool {
    &&& s.len() > 0
    &&& s[0] != '.'
    &&& ends_with(s, ".mkv"@) || ends_with(s, ".mp4"@) || ends_with(s, ".avi"@)
}

fn has_suffix(s: &str, suffix: &str) -> (r: bool)
    ensures
        r == ends_with(s@, suffix@),
{
    let n = s.unicode_len();
    let m = suffix.unicode_len();
    if m > n {
        return false;
    }
    let mut i: usize = 0;
    while i < m
        invariant
            n == s@.len(),
            m == suffix@.len(),
            m <= n,
            0 <= i <= m,
            forall|k: int| 0 <= k < i ==> s@[n - m + k] == #[trigger] suffix@[k],
        decreases m - i,
    {
        if s.get_char(n - m + i) != suffix.get_char(i) {
            assert(s@.subrange(n - m, n as int)[i as int] != suffix@[i as int]);
            return false;
        }
        i = i + 1;
    }
    assert(s@.subrange(n - m, n as int) =~= suffix@);
    true
}

/// Whether a directory entry named `name` is a media file to register.
pub fn is_media_name(name: &str) -> (r: bool)
    ensures
        r == media_name(name@),
{
    let n = name.unicode_len();
    if n == 0 || name.get_char(0) == '.' {
        return false;
    }
    has_suffix(name, ".mkv") || has_suffix(name, ".mp4") || has_suffix(name, ".avi")
}

} // verus!

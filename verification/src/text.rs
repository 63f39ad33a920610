//! Character and number text helpers shared by the decoders and the
//! query parsers.

use vstd::prelude::*;

verus! {

/// Appends one character to a `String`.
///
/// Trusted: calls `String::push`, which std documents as appending the
/// given char to the end of the string.
#[verifier::external_body]
pub(crate) fn push_char(s: &mut String, c: char)
    ensures
        final(s)@ == old(s)@.push(c),
{
    s.push(c);
}

/// The ASCII digit for `d` (`d < 10`).
pub open spec fn digit_char(d: int) -> char {
    (48 + d) as char
}

/// The decimal representation of `n`, without leading zeros.
pub open spec fn dec(n: nat) -> Seq<char>
    decreases n,
{
    if n < 10 {
        seq![digit_char(n as int)]
    } else {
        dec(n / 10).push(digit_char((n % 10) as int))
    }
}

/// Appends the decimal representation of `n` to `out`.
pub fn push_decimal(out: &mut String, n: u64)
    ensures
        final(out)@ == old(out)@ + dec(n as nat),
    decreases n,
{
    if n >= 10 {
        push_decimal(out, n / 10);
    }
    let d: u8 = (n % 10) as u8;
    push_char(out, (48u8 + d) as char);
    proof {
        assert(old(out)@ + dec(n as nat) =~= old(out)@ + if n < 10 {
            seq![digit_char(n as int)]
        } else {
            dec((n / 10) as nat).push(digit_char((n % 10) as int))
        });
    }
}

/// The characters of an optional string.
pub open spec fn opt_chars(o: Option<String>) -> Option<Seq<char>> {
    match o {
        Some(s) => Some(s@),
        None => None,
    }
}

/// The characters of `s`, in order.
pub fn str_chars(s: &str) -> (v: Vec<char>)
    ensures
        v@ == s@,
{
    let mut v: Vec<char> = Vec::new();
    for c in it: s.chars()
        invariant
            v@ == it.seq().take(it.index() as int),
    {
        v.push(c);
    }
    v
}

/// A string holding the characters of `v`.
pub fn chars_to_string(v: &Vec<char>) -> (s: String)
    ensures
        s@ == v@,
{
    let mut s = String::new();
    let mut i: usize = 0;
    while i < v.len()
        invariant
            0 <= i <= v@.len(),
            s@ == v@.take(i as int),
        decreases v@.len() - i,
    {
        push_char(&mut s, v[i]);
        i = i + 1;
        proof {
            assert(s@ =~= v@.take(i as int));
        }
    }
    proof {
        assert(v@.take(i as int) =~= v@);
    }
    s
}

/// Whether `c` has the Unicode White_Space property (the whitespace that
/// `str::trim` removes).
pub open spec fn is_white_space(c: char) -> bool {
    let u = c as int;
    (9 <= u <= 13) || u == 32 || u == 0x85 || u == 0xA0 || u == 0x1680 || (0x2000 <= u <= 0x200A)
        || u == 0x2028 || u == 0x2029 || u == 0x202F || u == 0x205F || u == 0x3000
}

pub(crate) fn is_white_space_char(c: char) -> (r: bool)
    ensures
        r == is_white_space(c),
{
    let u = c as u32;
    (9 <= u && u <= 13) || u == 32 || u == 0x85 || u == 0xA0 || u == 0x1680 || (0x2000 <= u && u
        <= 0x200A) || u == 0x2028 || u == 0x2029 || u == 0x202F || u == 0x205F || u == 0x3000
}

/// `s` without its leading whitespace.
pub open spec fn trim_start(s: Seq<char>) -> Seq<char>
    decreases s.len(),
{
    if s.len() > 0 && is_white_space(s[0]) {
        trim_start(s.drop_first())
    } else {
        s
    }
}

/// `s` without its trailing whitespace.
pub open spec fn trim_end(s: Seq<char>) -> Seq<char>
    decreases s.len(),
{
    if s.len() > 0 && is_white_space(s.last()) {
        trim_end(s.drop_last())
    } else {
        s
    }
}

/// `s` without leading and trailing whitespace.
pub open spec fn trim(s: Seq<char>) -> Seq<char> {
    trim_end(trim_start(s))
}

/// The bounds of `chars[start..end]` with leading and trailing whitespace removed.
fn trim_range(chars: &Vec<char>, start: usize, end: usize) -> (r: (usize, usize))
    requires
        start <= end <= chars@.len(),
    ensures
        start <= r.0 <= r.1 <= end,
        chars@.subrange(r.0 as int, r.1 as int) == trim(chars@.subrange(start as int, end as int)),
{
    let ghost s = chars@.subrange(start as int, end as int);
    let mut i: usize = start;
    while i < end && is_white_space_char(chars[i])
        invariant
            start <= i <= end <= chars@.len(),
            s == chars@.subrange(start as int, end as int),
            trim_start(s) == trim_start(chars@.subrange(i as int, end as int)),
        decreases end - i,
    {
        proof {
            assert(chars@.subrange(i as int, end as int).drop_first() =~= chars@.subrange(
                i + 1,
                end as int,
            ));
        }
        i = i + 1;
    }
    let ghost t = chars@.subrange(i as int, end as int);
    assert(trim_start(s) == t);
    let mut j: usize = end;
    while j > i && is_white_space_char(chars[j - 1])
        invariant
            start <= i <= j <= end <= chars@.len(),
            trim_end(t) == trim_end(chars@.subrange(i as int, j as int)),
        decreases j - i,
    {
        proof {
            assert(chars@.subrange(i as int, j as int).drop_last() =~= chars@.subrange(
                i as int,
                j - 1,
            ));
        }
        j = j - 1;
    }
    (i, j)
}

/// The value of digit `c` in `radix`: 0–9, then a–z or A–Z for 10 and up.
pub open spec fn digit_val(c: char, radix: nat) -> Option<nat> {
    let u = c as int;
    let d = if 48 <= u <= 57 {
        u - 48
    } else if 97 <= u <= 122 {
        u - 87
    } else if 65 <= u <= 90 {
        u - 55
    } else {
        36
    };
    if d < radix {
        Some(d as nat)
    } else {
        None
    }
}

fn digit_value(c: char, radix: u32) -> (r: Option<u32>)
    requires
        radix <= 36,
    ensures
        r matches Some(d) ==> digit_val(c, radix as nat) == Some(d as nat),
        r is None ==> digit_val(c, radix as nat) is None,
{
    let u = c as u32;
    let d: u32 = if 48 <= u && u <= 57 {
        u - 48
    } else if 97 <= u && u <= 122 {
        u - 87
    } else if 65 <= u && u <= 90 {
        u - 55
    } else {
        36
    };
    if d < radix {
        Some(d)
    } else {
        None
    }
}

/// Whether every character of `d` is a digit in `radix`.
pub open spec fn all_digits(d: Seq<char>, radix: nat) -> bool {
    forall|i: int| 0 <= i < d.len() ==> (#[trigger] digit_val(d[i], radix)) is Some
}

/// The number written by the digits `d` in `radix`, most significant first.
pub open spec fn digits_value(d: Seq<char>, radix: nat) -> nat
    decreases d.len(),
{
    if d.len() == 0 {
        0
    } else {
        digits_value(d.drop_last(), radix) * radix + digit_val(d.last(), radix)->0
    }
}

/// Integer parsing as `from_str_radix` does it for an unsigned type whose
/// largest value is `max`: an optional `+` followed by at least one digit
/// of `radix`, with a value no larger than `max`.
pub open spec fn parse_radix(s: Seq<char>, radix: nat, max: nat) -> Option<nat> {
    let d = if s.len() > 0 && s[0] == '+' {
        s.drop_first()
    } else {
        s
    };
    if d.len() == 0 || !all_digits(d, radix) || digits_value(d, radix) > max {
        None
    } else {
        Some(digits_value(d, radix))
    }
}

proof fn lemma_digits_value_prefix(d: Seq<char>, radix: nat, k: int)
    requires
        radix >= 1,
        0 <= k <= d.len(),
    ensures
        digits_value(d.take(k), radix) <= digits_value(d, radix),
    decreases d.len(),
{
    if k < d.len() {
        assert(d.drop_last().take(k) =~= d.take(k));
        lemma_digits_value_prefix(d.drop_last(), radix, k);
        let v = digits_value(d.drop_last(), radix);
        assert(v <= v * radix) by (nonlinear_arith)
            requires
                radix >= 1,
        ;
    } else {
        assert(d.take(k) =~= d);
    }
}

/// Parses `chars` as an unsigned number in `radix` no larger than `max`,
/// as `from_str_radix` does.
pub fn parse_unsigned(chars: &Vec<char>, radix: u32, max: u64) -> (r: Option<u64>)
    requires
        2 <= radix <= 36,
        max <= u32::MAX,
    ensures
        r matches Some(v) ==> parse_radix(chars@, radix as nat, max as nat) == Some(v as nat),
        r is None ==> parse_radix(chars@, radix as nat, max as nat) is None,
{
    let ghost s = chars@;
    let mut start: usize = 0;
    if chars.len() > 0 && chars[0] == '+' {
        start = 1;
    }
    let ghost d = s.subrange(start as int, s.len() as int);
    proof {
        if start == 1 {
            assert(d =~= s.drop_first());
        } else {
            assert(d =~= s);
        }
    }
    if start == chars.len() {
        return None;
    }
    let mut acc: u64 = 0;
    let mut i: usize = start;
    while i < chars.len()
        invariant
            2 <= radix <= 36,
            max <= u32::MAX,
            s == chars@,
            start <= i <= chars@.len(),
            d == s.subrange(start as int, s.len() as int),
            d == (if s.len() > 0 && s[0] == '+' { s.drop_first() } else { s }),
            d.len() > 0,
            all_digits(d.take(i - start), radix as nat),
            acc as nat == digits_value(d.take(i - start), radix as nat),
            acc <= max,
        decreases chars@.len() - i,
    {
        let ghost k: int = i - start;
        let dv = match digit_value(chars[i], radix) {
            Some(dv) => dv,
            None => {
                proof {
                    assert(d[k] == chars@[i as int]);
                    assert(!all_digits(d, radix as nat));
                }
                return None;
            },
        };
        proof {
            assert(d.take(k + 1).drop_last() =~= d.take(k));
            assert(d.take(k + 1).last() == chars@[i as int]);
            assert(acc * radix <= 0xFFFF_FFFFu64 * 36) by (nonlinear_arith)
                requires
                    acc <= 0xFFFF_FFFFu64,
                    radix <= 36,
            ;
        }
        let next: u64 = acc * (radix as u64) + (dv as u64);
        if next > max {
            proof {
                lemma_digits_value_prefix(d, radix as nat, k + 1);
            }
            return None;
        }
        acc = next;
        i = i + 1;
        proof {
            assert forall|j: int| 0 <= j < d.take(i - start).len() implies (#[trigger] digit_val(
                d.take(i - start)[j],
                radix as nat,
            )) is Some by {
                if j < k {
                    assert(d.take(i - start)[j] == d.take(k)[j]);
                }
            }
        }
    }
    proof {
        assert(d.take(i - start) =~= d);
    }
    Some(acc)
}

/// The state of splitting `s` on commas: the pieces closed by a comma, and
/// the piece still open.
pub open spec fn split_state(s: Seq<char>) -> (Seq<Seq<char>>, Seq<char>)
    decreases s.len(),
{
    if s.len() == 0 {
        (Seq::empty(), Seq::empty())
    } else {
        let (done, cur) = split_state(s.drop_last());
        if s.last() == ',' {
            (done.push(cur), Seq::empty())
        } else {
            (done, cur.push(s.last()))
        }
    }
}

/// The pieces of `s` between commas, as `str::split(',')` gives them.
pub open spec fn comma_pieces(s: Seq<char>) -> Seq<Seq<char>> {
    split_state(s).0.push(split_state(s).1)
}

/// The pieces trimmed of whitespace, empty ones dropped.
pub open spec fn nonempty_trimmed(pieces: Seq<Seq<char>>) -> Seq<Seq<char>>
    decreases pieces.len(),
{
    if pieces.len() == 0 {
        Seq::empty()
    } else {
        let rest = nonempty_trimmed(pieces.drop_last());
        if trim(pieces.last()).len() == 0 {
            rest
        } else {
            rest.push(trim(pieces.last()))
        }
    }
}

/// The items of a comma-separated list: each piece trimmed, empty ones dropped.
pub open spec fn list_items(s: Seq<char>) -> Seq<Seq<char>> {
    nonempty_trimmed(comma_pieces(s))
}

/// The characters of each string.
pub open spec fn vecs_view(v: Seq<Vec<char>>) -> Seq<Seq<char>> {
    v.map_values(|x: Vec<char>| x@)
}

fn copy_chars(chars: &Vec<char>, start: usize, end: usize) -> (out: Vec<char>)
    requires
        start <= end <= chars@.len(),
    ensures
        out@ == chars@.subrange(start as int, end as int),
{
    let mut out: Vec<char> = Vec::new();
    let mut i: usize = start;
    while i < end
        invariant
            start <= i <= end <= chars@.len(),
            out@ == chars@.subrange(start as int, i as int),
        decreases end - i,
    {
        out.push(chars[i]);
        i = i + 1;
    }
    out
}

/// Splits `value` on commas, trims each piece and drops the empty ones.
pub fn split_list(value: &str) -> (items: Vec<Vec<char>>)
    ensures
        vecs_view(items@) == list_items(value@),
{
    let chars = str_chars(value);
    let ghost s = chars@;
    let mut items: Vec<Vec<char>> = Vec::new();
    let mut piece_start: usize = 0;
    let mut i: usize = 0;
    while i < chars.len()
        invariant
            s == chars@,
            piece_start <= i <= chars@.len(),
            split_state(s.take(i as int)).1 == s.subrange(piece_start as int, i as int),
            vecs_view(items@) == nonempty_trimmed(split_state(s.take(i as int)).0),
        decreases chars@.len() - i,
    {
        proof {
            assert(s.take(i + 1).drop_last() =~= s.take(i as int));
            assert(s.take(i + 1).last() == chars@[i as int]);
        }
        if chars[i] == ',' {
            let (a, b) = trim_range(&chars, piece_start, i);
            if a < b {
                let item = copy_chars(&chars, a, b);
                items.push(item);
            }
            proof {
                let done = split_state(s.take(i as int)).0;
                let cur = split_state(s.take(i as int)).1;
                assert(done.push(cur).drop_last() =~= done);
                assert(vecs_view(items@) =~= nonempty_trimmed(done.push(cur)));
            }
            piece_start = i + 1;
        } else {
            proof {
                assert(s.subrange(piece_start as int, i + 1) =~= s.subrange(
                    piece_start as int,
                    i as int,
                ).push(chars@[i as int]));
            }
        }
        i = i + 1;
    }
    proof {
        assert(s.take(i as int) =~= s);
    }
    let (a, b) = trim_range(&chars, piece_start, chars.len());
    if a < b {
        let item = copy_chars(&chars, a, b);
        items.push(item);
    }
    proof {
        let done = split_state(s).0;
        let cur = split_state(s).1;
        assert(done.push(cur).drop_last() =~= done);
        assert(vecs_view(items@) =~= nonempty_trimmed(done.push(cur)));
    }
    items
}

} // verus!

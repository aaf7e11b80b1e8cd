use vstd::prelude::*;

verus! {

/// The characters that count as white space around a line or a token:
/// those with Unicode's White_Space property.
pub open spec fn is_white(c: char) -> bool {
    let u = c as u32;
    ||| 0x09 <= u <= 0x0D
    ||| u == 0x20
    ||| u == 0x85
    ||| u == 0xA0
    ||| u == 0x1680
    ||| 0x2000 <= u <= 0x200A
    ||| u == 0x2028
    ||| u == 0x2029
    ||| u == 0x202F
    ||| u == 0x205F
    ||| u == 0x3000
}

/// `s` without its leading white space.
pub open spec fn trim_start(s: Seq<char>) -> Seq<char>
    decreases s.len(),
{
    if s.len() > 0 && is_white(s[0]) {
        trim_start(s.drop_first())
    } else {
        s
    }
}

/// `s` without its trailing white space.
pub open spec fn trim_end(s: Seq<char>) -> Seq<char>
    decreases s.len(),
{
    if s.len() > 0 && is_white(s.last()) {
        trim_end(s.drop_last())
    } else {
        s
    }
}

/// `s` without white space at either end.
pub open spec fn trim(s: Seq<char>) -> Seq<char> {
    trim_end(trim_start(s))
}

/// The pieces of `s` between single spaces. Neighbouring spaces are not
/// merged, so they leave empty pieces; an empty `s` gives one empty piece.
pub open spec fn split_spaces(s: Seq<char>) -> Seq<Seq<char>>
    decreases s.len(),
{
    if s.len() == 0 {
        seq![Seq::<char>::empty()]
    } else if s.last() == ' ' {
        split_spaces(s.drop_last()).push(Seq::<char>::empty())
    } else {
        let p = split_spaces(s.drop_last());
        p.update(p.len() - 1, p.last().push(s.last()))
    }
}

/// Cutting at spaces always leaves at least one piece.
pub proof fn lemma_split_nonempty(s: Seq<char>)
    ensures
        split_spaces(s).len() >= 1,
    decreases s.len(),
{
    if s.len() > 0 {
        lemma_split_nonempty(s.drop_last());
    }
}

pub open spec fn is_digit(c: char) -> bool {
    0x30 <= (c as u32) <= 0x39
}

pub open spec fn digit_value(c: char) -> int {
    (c as u32) - 0x30
}

pub open spec fn all_digits(s: Seq<char>) -> bool {
    forall|i: int| 0 <= i < s.len() ==> is_digit(#[trigger] s[i])
}

/// The decimal value of a string of digits.
pub open spec fn digits_value(s: Seq<char>) -> int
    decreases s.len(),
{
    if s.len() == 0 {
        0
    } else {
        digits_value(s.drop_last()) * 10 + digit_value(s.last())
    }
}

/// The integer that `s` writes in decimal: an optional `+` or `-` followed by
/// at least one digit, and nothing else.
pub open spec fn decimal_value(s: Seq<char>) -> Option<int> {
    if s.len() > 0 && (s[0] == '-' || s[0] == '+') {
        let body = s.drop_first();
        if body.len() > 0 && all_digits(body) {
            Some(if s[0] == '-' { -digits_value(body) } else { digits_value(body) })
        } else {
            None
        }
    } else if s.len() > 0 && all_digits(s) {
        Some(digits_value(s))
    } else {
        None
    }
}

/// The `i32` that `s` writes, if it writes one that fits.
pub open spec fn parse_i32(s: Seq<char>) -> Option<i32> {
    match decimal_value(s) {
        Some(v) => if i32::MIN <= v <= i32::MAX {
            Some(v as i32)
        } else {
            None
        },
        None => None,
    }
}

pub fn is_white_char(c: char) -> (r: bool)
    ensures
        r == is_white(c),
{
    let u = c as u32;
    (0x09 <= u && u <= 0x0D) || u == 0x20 || u == 0x85 || u == 0xA0 || u == 0x1680 || (0x2000
        <= u && u <= 0x200A) || u == 0x2028 || u == 0x2029 || u == 0x202F || u == 0x205F || u
        == 0x3000
}


/// `s` without white space at either end.
pub fn trim_text(s: &str) -> (r: &str)
    ensures
        r@ == trim(s@),
{
    let n = s.unicode_len();
    let mut lo: usize = 0;
    assert(s@.subrange(0, n as int) =~= s@);
    loop
        invariant
            0 <= lo <= n,
            n == s@.len(),
            trim_start(s@) == trim_start(s@.subrange(lo as int, n as int)),
        ensures
            0 <= lo <= n,
            trim_start(s@) == s@.subrange(lo as int, n as int),
        decreases n - lo,
    {
        if lo == n {
            break;
        }
        if !is_white_char(s.get_char(lo)) {
            break;
        }
        assert(s@.subrange(lo + 1, n as int) =~= s@.subrange(lo as int, n as int).drop_first());
        lo += 1;
    }
    let mut hi: usize = n;
    loop
        invariant
            lo <= hi <= n,
            n == s@.len(),
            trim(s@) == trim_end(s@.subrange(lo as int, hi as int)),
        ensures
            lo <= hi <= n,
            trim(s@) == s@.subrange(lo as int, hi as int),
        decreases hi - lo,
    {
        if hi == lo {
            break;
        }
        if !is_white_char(s.get_char(hi - 1)) {
            break;
        }
        assert(s@.subrange(lo as int, hi - 1) =~= s@.subrange(lo as int, hi as int).drop_last());
        hi -= 1;
    }
    s.substring_char(lo, hi)
}

/// Cuts `s` at every single space, as `split_spaces` describes.
pub fn split_text<'a>(s: &'a str) -> (r: Vec<&'a str>)
    ensures
        r@.len() == split_spaces(s@).len(),
        forall|k: int| 0 <= k < r@.len() ==> (#[trigger] r@[k])@ == split_spaces(s@)[k],
{
    let n = s.unicode_len();
    let mut r: Vec<&'a str> = Vec::new();
    let mut start: usize = 0;
    let mut i: usize = 0;
    while i < n
        invariant
            n == s@.len(),
            start <= i <= n,
            r@.len() + 1 == split_spaces(s@.subrange(0, i as int)).len(),
            forall|k: int|
                0 <= k < r@.len() ==> (#[trigger] r@[k])@ == split_spaces(
                    s@.subrange(0, i as int),
                )[k],
            split_spaces(s@.subrange(0, i as int)).last() == s@.subrange(
                start as int,
                i as int,
            ),
        decreases n - i,
    {
        assert(s@.subrange(0, i + 1).drop_last() =~= s@.subrange(0, i as int));
        let c = s.get_char(i);
        if c == ' ' {
            let piece = s.substring_char(start, i);
            r.push(piece);
            start = i + 1;
            assert(s@.subrange(start as int, i + 1) =~= Seq::<char>::empty());
        } else {
            assert(s@.subrange(start as int, i + 1) =~= s@.subrange(start as int, i as int).push(c));
        }
        i += 1;
    }
    assert(s@.subrange(0, n as int) =~= s@);
    let last = s.substring_char(start, n);
    r.push(last);
    r
}

/// Whether `a` and `b` hold the same characters.
pub fn same_text(a: &str, b: &str) -> (r: bool)
    ensures
        r == (a@ == b@),
{
    let n = a.unicode_len();
    if n != b.unicode_len() {
        return false;
    }
    let mut i: usize = 0;
    while i < n
        invariant
            n == a@.len(),
            n == b@.len(),
            i <= n,
            forall|k: int| 0 <= k < i ==> a@[k] == b@[k],
        decreases n - i,
    {
        if a.get_char(i) != b.get_char(i) {
            return false;
        }
        i += 1;
    }
    assert(a@ =~= b@);
    true
}

proof fn lemma_digits_nonneg(s: Seq<char>)
    requires
        all_digits(s),
    ensures
        digits_value(s) >= 0,
    decreases s.len(),
{
    if s.len() > 0 {
        lemma_digits_nonneg(s.drop_last());
        assert(is_digit(s[s.len() - 1]));
    }
}

/// A string of digits is worth at least as much as any of its prefixes.
proof fn lemma_digits_prefix(s: Seq<char>, k: int)
    requires
        all_digits(s),
        0 <= k <= s.len(),
    ensures
        digits_value(s.subrange(0, k)) <= digits_value(s),
    decreases s.len(),
{
    if k == s.len() {
        assert(s.subrange(0, k) =~= s);
    } else {
        let d = s.drop_last();
        assert(all_digits(d));
        assert(d.subrange(0, k) =~= s.subrange(0, k));
        lemma_digits_prefix(d, k);
        lemma_digits_nonneg(d);
        assert(is_digit(s[s.len() - 1]));
    }
}

/// Reads the `i32` that `s` writes in decimal.
pub fn parse_decimal(s: &str) -> (r: Option<i32>)
    ensures
        r == parse_i32(s@),
{
    let n = s.unicode_len();
    if n == 0 {
        return None;
    }
    let first = s.get_char(0);
    let negative = first == '-';
    let start: usize = if first == '-' || first == '+' { 1 } else { 0 };
    if start == n {
        return None;
    }
    let ghost body = s@.subrange(start as int, n as int);
    assert(start == 1 ==> body =~= s@.drop_first());
    assert(start == 0 ==> body =~= s@);
    let mut acc: i64 = 0;
    let mut i: usize = start;
    while i < n
        invariant
            n == s@.len(),
            start <= i <= n,
            start <= 1,
            body == s@.subrange(start as int, n as int),
            start == 1 ==> body == s@.drop_first(),
            start == 0 ==> body == s@,
            start == 1 <==> (s@[0] == '-' || s@[0] == '+'),
            negative <==> s@[0] == '-',
            all_digits(body.subrange(0, i - start)),
            acc == digits_value(body.subrange(0, i - start)),
            0 <= acc <= 0x8000_0000,
        decreases n - i,
    {
        let c = s.get_char(i);
        let u = c as u32;
        if u < 0x30 || u > 0x39 {
            assert(!is_digit(body[i - start]));
            return None;
        }
        let ghost pre = body.subrange(0, i - start);
        let ghost next = body.subrange(0, i - start + 1);
        assert(next.drop_last() =~= pre);
        assert(all_digits(next));
        acc = acc * 10 + (u - 0x30) as i64;
        assert(next.last() == c);
        assert(acc == digits_value(next));
        i += 1;
        if acc > 0x8000_0000 {
            proof {
                if all_digits(body) {
                    lemma_digits_prefix(body, i - start);
                    assert(body.subrange(0, i - start) == next);
                }

            }
            return None;
        }
    }
    assert(body.subrange(0, n - start) =~= body);
    if negative {
        Some((-acc) as i32)
    } else if acc > 0x7FFF_FFFF {
        None
    } else {
        Some(acc as i32)
    }
}

} // verus!

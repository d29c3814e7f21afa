//! Text as sequences of characters: whitespace, suffixes, decimal numbers
//! and separated fields.

use vstd::prelude::*;

verus! {

/// The characters of `s`, in order.
pub fn chars_of(s: &str) -> (v: Vec<char>)
    ensures
        v@ == s@,
{
    broadcast use vstd::string::group_string_axioms;

    let mut v: Vec<char> = Vec::new();
    let chars = s.chars();
    for c in it: chars
        invariant
            it.seq() == s@,
            v@ == s@.subrange(0, it.index()),
    {
        v.push(c);
    }
    assert(v@ == s@.subrange(0, s@.len() as int));
    v
}

/// Whether `c` has the Unicode property White_Space.
pub open spec fn is_whitespace(c: char) -> bool {
    let n = c as u32;
    ||| 0x09 <= n <= 0x0D
    ||| n == 0x20
    ||| n == 0x85
    ||| n == 0xA0
    ||| n == 0x1680
    ||| 0x2000 <= n <= 0x200A
    ||| n == 0x2028
    ||| n == 0x2029
    ||| n == 0x202F
    ||| n == 0x205F
    ||| n == 0x3000
}

/// Tests one character for the property White_Space.
pub fn is_whitespace_char(c: char) -> (b: bool)
    ensures
        b == is_whitespace(c),
{
    let n: u32 = c as u32;
    (0x09 <= n && n <= 0x0D) || n == 0x20 || n == 0x85 || n == 0xA0 || n == 0x1680 || (0x2000 <= n
        && n <= 0x200A) || n == 0x2028 || n == 0x2029 || n == 0x202F || n == 0x205F || n == 0x3000
}

/// `s` without the whitespace at its front.
pub open spec fn trim_start(s: Seq<char>) -> Seq<char>
    decreases s.len(),
{
    if s.len() > 0 && is_whitespace(s[0]) {
        trim_start(s.drop_first())
    } else {
        s
    }
}

/// `s` without the whitespace at its end.
pub open spec fn trim_end(s: Seq<char>) -> Seq<char>
    decreases s.len(),
{
    if s.len() > 0 && is_whitespace(s.last()) {
        trim_end(s.drop_last())
    } else {
        s
    }
}

/// `s` without the whitespace at either end.
pub open spec fn trim(s: Seq<char>) -> Seq<char> {
    trim_end(trim_start(s))
}

/// Whether `s` ends with `suffix`.
pub open spec fn ends_with(s: Seq<char>, suffix: Seq<char>) -> bool {
    suffix.len() <= s.len() && s.subrange(s.len() - suffix.len(), s.len() as int) == suffix
}

/// What stands in `s` in front of its ending `suffix`: `s` without as many
/// characters at its end as `suffix` has.
pub open spec fn before_suffix(s: Seq<char>, suffix: Seq<char>) -> Seq<char>
    recommends
        ends_with(s, suffix),
{
    s.subrange(0, s.len() - suffix.len())
}

/// Whether `c` is one of the ten decimal digits.
pub open spec fn is_digit(c: char) -> bool {
    0x30 <= c as u32 <= 0x39
}

/// The number that the digit `c` stands for.
pub open spec fn digit_value(c: char) -> nat {
    (c as u32 - 0x30) as nat
}

/// Whether `s` is made of decimal digits, at least one.
pub open spec fn is_decimal(s: Seq<char>) -> bool {
    s.len() > 0 && forall|i: int| 0 <= i < s.len() ==> is_digit(#[trigger] s[i])
}

/// The number that the digits of `s` write, most significant first.
pub open spec fn decimal_value(s: Seq<char>) -> nat
    decreases s.len(),
{
    if s.len() == 0 {
        0
    } else {
        decimal_value(s.drop_last()) * 10 + digit_value(s.last())
    }
}

/// `s` without one leading plus sign.
pub open spec fn unsigned_digits(s: Seq<char>) -> Seq<char> {
    if s.len() > 0 && s[0] == '+' {
        s.drop_first()
    } else {
        s
    }
}

/// The unsigned integer that `s` writes: an optional plus sign, then
/// decimal digits and nothing else. `None` where `s` is not of that form.
pub open spec fn unsigned_value(s: Seq<char>) -> Option<nat> {
    if is_decimal(unsigned_digits(s)) {
        Some(decimal_value(unsigned_digits(s)))
    } else {
        None
    }
}

/// The fields of `s` between occurrences of `sep`. There is always at least
/// one field; a separator at either end borders an empty field.
pub open spec fn split(s: Seq<char>, sep: char) -> Seq<Seq<char>>
    decreases s.len(),
{
    if s.len() == 0 {
        seq![Seq::<char>::empty()]
    } else {
        let before = split(s.drop_last(), sep);
        if s.last() == sep {
            before.push(Seq::<char>::empty())
        } else {
            before.update(before.len() - 1, before.last().push(s.last()))
        }
    }
}

/// Trimming what is trimmed takes nothing more.
pub proof fn lemma_trim_twice(s: Seq<char>)
    ensures
        trim(trim(s)) == trim(s),
{
    lemma_trim_start_front(s);
    lemma_trim_end_keeps_front(trim_start(s));
    lemma_trim_end_back(trim_start(s));
    let t = trim(s);
    assert(trim_start(t) == t);
    assert(trim_end(t) == t);
}

/// What `trim_start` gives does not begin with whitespace.
pub proof fn lemma_trim_start_front(s: Seq<char>)
    ensures
        trim_start(s).len() > 0 ==> !is_whitespace(trim_start(s)[0]),
    decreases s.len(),
{
    if s.len() > 0 && is_whitespace(s[0]) {
        lemma_trim_start_front(s.drop_first());
    }
}

/// What `trim_end` gives does not end with whitespace.
pub proof fn lemma_trim_end_back(s: Seq<char>)
    ensures
        trim_end(s).len() > 0 ==> !is_whitespace(trim_end(s).last()),
    decreases s.len(),
{
    if s.len() > 0 && is_whitespace(s.last()) {
        lemma_trim_end_back(s.drop_last());
    }
}

/// `trim_end` leaves a first character that is no whitespace in place.
pub proof fn lemma_trim_end_keeps_front(s: Seq<char>)
    requires
        s.len() > 0 ==> !is_whitespace(s[0]),
    ensures
        trim_end(s).len() > 0 ==> trim_end(s)[0] == s[0] && s.len() > 0,
        s.len() > 0 ==> trim_end(s).len() > 0,
    decreases s.len(),
{
    if s.len() > 0 && is_whitespace(s.last()) {
        assert(s.len() > 1);
        lemma_trim_end_keeps_front(s.drop_last());
    }
}

/// The fields `fields` with `sep` between each two of them.
pub open spec fn join(fields: Seq<Seq<char>>, sep: char) -> Seq<char>
    decreases fields.len(),
{
    if fields.len() == 0 {
        Seq::empty()
    } else if fields.len() == 1 {
        fields[0]
    } else {
        join(fields.drop_last(), sep).push(sep) + fields.last()
    }
}

/// Whether no field of `fields` holds `sep`.
pub open spec fn free_of(fields: Seq<Seq<char>>, sep: char) -> bool {
    forall|k: int, i: int|
        0 <= k < fields.len() && 0 <= i < fields[k].len() ==> #[trigger] fields[k][i] != sep
}

/// Splitting takes a text apart at its separators and nowhere else: no
/// field holds a separator, and the fields joined again are the text.
pub proof fn lemma_split_then_join(s: Seq<char>, sep: char)
    ensures
        split(s, sep).len() > 0,
        free_of(split(s, sep), sep),
        join(split(s, sep), sep) == s,
    decreases s.len(),
{
    if s.len() > 0 {
        let before = split(s.drop_last(), sep);
        lemma_split_then_join(s.drop_last(), sep);
        let fields = split(s, sep);
        if s.last() == sep {
            assert(fields.drop_last() == before);
            assert(join(fields, sep) == s.drop_last().push(sep) + Seq::<char>::empty());
            assert(join(fields, sep) == s);
            assert forall|k: int, i: int|
                0 <= k < fields.len() && 0 <= i < fields[k].len() implies #[trigger] fields[k][i]
                != sep by {
                if k < before.len() {
                    assert(fields[k] == before[k]);
                }
            }
        } else {
            let last = before.last().push(s.last());
            assert forall|k: int, i: int|
                0 <= k < fields.len() && 0 <= i < fields[k].len() implies #[trigger] fields[k][i]
                != sep by {
                if k < before.len() - 1 {
                    assert(fields[k] == before[k]);
                } else if i < before.last().len() {
                    assert(fields[k][i] == before[k][i]);
                }
            }
            if before.len() == 1 {
                assert(join(fields, sep) == s);
            } else {
                assert(fields.drop_last() == before.drop_last());
                let front = join(before.drop_last(), sep).push(sep);
                assert(front + last == (front + before.last()).push(s.last()));
                assert(join(fields, sep) == s);
            }
        }
    }
}

/// A field without separator behind a text lengthens the last field of
/// the text.
pub proof fn lemma_split_append_field(s: Seq<char>, field: Seq<char>, sep: char)
    requires
        forall|i: int| 0 <= i < field.len() ==> field[i] != sep,
    ensures
        split(s, sep).len() > 0,
        split(s + field, sep) == split(s, sep).update(
            split(s, sep).len() - 1,
            split(s, sep).last() + field,
        ),
    decreases field.len(),
{
    lemma_split_then_join(s, sep);
    let fields = split(s, sep);
    if field.len() == 0 {
        assert(s + field == s);
        assert(fields.last() + field == fields.last());
        assert(fields.update(fields.len() - 1, fields.last()) == fields);
    } else {
        lemma_split_append_field(s, field.drop_last(), sep);
        assert((s + field).drop_last() == s + field.drop_last());
        assert((s + field).last() == field.last());
        let before = split(s + field.drop_last(), sep);
        assert(before.last().push(field.last()) == fields.last() + field);
        assert(before.update(before.len() - 1, before.last().push(field.last())) == fields.update(
            fields.len() - 1,
            fields.last() + field,
        ));
    }
}

/// Joining fields that hold no separator and splitting the text again
/// gives the fields back: a text has one reading as a list of fields.
pub proof fn lemma_join_then_split(fields: Seq<Seq<char>>, sep: char)
    requires
        fields.len() > 0,
        free_of(fields, sep),
    ensures
        split(join(fields, sep), sep) == fields,
    decreases fields.len(),
{
    let last = fields.last();
    assert forall|i: int| 0 <= i < last.len() implies last[i] != sep by {
        assert(fields[fields.len() - 1][i] != sep);
    }
    if fields.len() == 1 {
        let none = Seq::<char>::empty();
        assert(none + last == last);
        lemma_split_append_field(none, last, sep);
        assert(split(none, sep) == seq![none]);
        assert(seq![none].update(0, none + last) == fields);
    } else {
        let front = fields.drop_last();
        assert(free_of(front, sep)) by {
            assert forall|k: int, i: int|
                0 <= k < front.len() && 0 <= i < front[k].len() implies #[trigger] front[k][i]
                != sep by {
                assert(fields[k][i] != sep);
            }
        }
        lemma_join_then_split(front, sep);
        let text = join(front, sep).push(sep);
        assert(text.drop_last() == join(front, sep));
        assert(split(text, sep) == front.push(Seq::<char>::empty()));
        lemma_split_append_field(text, last, sep);
        assert(Seq::<char>::empty() + last == last);
        assert(front.push(Seq::<char>::empty()).update(front.len() as int, last) == fields);
    }
}

/// What reading an unsigned integer under a limit gives.
#[derive(Clone, Copy, Debug, PartialEq, Eq, Structural)]
pub(crate) enum Unsigned {
    /// The text is no unsigned integer.
    Malformed,
    /// The integer, which does not exceed the limit.
    Value(u64),
    /// The text is an unsigned integer above the limit.
    TooLarge,
}

/// The bounds of `trim` applied to the characters of `v` from `lo` up to `hi`.
pub(crate) fn trim_bounds(v: &Vec<char>, lo: usize, hi: usize) -> (r: (usize, usize))
    requires
        lo <= hi <= v.len(),
    ensures
        lo <= r.0 <= r.1 <= hi,
        v@.subrange(r.0 as int, r.1 as int) == trim(v@.subrange(lo as int, hi as int)),
{
    let mut i: usize = lo;
    while i < hi && is_whitespace_char(v[i])
        invariant
            lo <= i <= hi <= v.len(),
            trim_start(v@.subrange(lo as int, hi as int)) == trim_start(
                v@.subrange(i as int, hi as int),
            ),
        decreases hi - i,
    {
        assert(v@.subrange(i as int, hi as int).drop_first() == v@.subrange(i + 1, hi as int));
        i += 1;
    }
    let mut j: usize = hi;
    while i < j && is_whitespace_char(v[j - 1])
        invariant
            i <= j <= hi <= v.len(),
            trim_end(v@.subrange(i as int, hi as int)) == trim_end(v@.subrange(i as int, j as int)),
        decreases j - i,
    {
        assert(v@.subrange(i as int, j as int).drop_last() == v@.subrange(i as int, j - 1));
        j -= 1;
    }
    (i, j)
}

/// Whether the characters of `v` from `lo` up to `hi` end with `suffix`.
pub(crate) fn ends_with_at(v: &Vec<char>, lo: usize, hi: usize, suffix: &Vec<char>) -> (b: bool)
    requires
        lo <= hi <= v.len(),
    ensures
        b == ends_with(v@.subrange(lo as int, hi as int), suffix@),
{
    let n = suffix.len();
    if hi - lo < n {
        return false;
    }
    let base: usize = hi - n;
    let ghost s = v@.subrange(lo as int, hi as int);
    let ghost tail = s.subrange(s.len() - n, s.len() as int);
    let mut k: usize = 0;
    while k < n
        invariant
            lo <= base,
            base + n == hi,
            hi <= v.len(),
            n == suffix.len(),
            k <= n,
            s == v@.subrange(lo as int, hi as int),
            tail == s.subrange(s.len() - n, s.len() as int),
            forall|m: int| 0 <= m < k ==> tail[m] == suffix@[m],
        decreases n - k,
    {
        if v[base + k] != suffix[k] {
            assert(tail[k as int] != suffix@[k as int]);
            return false;
        }
        k += 1;
    }
    assert(tail =~= suffix@);
    true
}

/// Reads the characters of `v` from `lo` up to `hi` as an unsigned integer
/// that may not exceed `limit`.
pub(crate) fn read_unsigned(v: &Vec<char>, lo: usize, hi: usize, limit: u64) -> (r: Unsigned)
    requires
        lo <= hi <= v.len(),
    ensures
        r == match unsigned_value(v@.subrange(lo as int, hi as int)) {
            None => Unsigned::Malformed,
            Some(n) => if n <= limit {
                Unsigned::Value(n as u64)
            } else {
                Unsigned::TooLarge
            },
        },
{
    let ghost s = v@.subrange(lo as int, hi as int);
    let start: usize = if lo < hi && v[lo] == '+' {
        lo + 1
    } else {
        lo
    };
    let ghost d = v@.subrange(start as int, hi as int);
    assert(d == unsigned_digits(s));
    if start == hi {
        return Unsigned::Malformed;
    }
    let mut acc: u64 = 0;
    let mut beyond = false;
    let mut i: usize = start;
    while i < hi
        invariant
            start <= i <= hi <= v.len(),
            lo <= start,
            d == v@.subrange(start as int, hi as int),
            d == unsigned_digits(v@.subrange(lo as int, hi as int)),
            forall|m: int| 0 <= m < i - start ==> is_digit(#[trigger] d[m]),
            !beyond ==> acc == decimal_value(v@.subrange(start as int, i as int)) && acc <= limit,
            beyond ==> decimal_value(v@.subrange(start as int, i as int)) > limit,
        decreases hi - i,
    {
        let c: u32 = v[i] as u32;
        if c < 0x30 || c > 0x39 {
            assert(!is_digit(d[i - start]));
            return Unsigned::Malformed;
        }
        let digit: u64 = (c - 0x30) as u64;
        assert(v@.subrange(start as int, i + 1).drop_last() == v@.subrange(
            start as int,
            i as int,
        ));
        assert(decimal_value(v@.subrange(start as int, i + 1)) == decimal_value(
            v@.subrange(start as int, i as int),
        ) * 10 + digit);
        if !beyond {
            match acc.checked_mul(10) {
                None => {
                    beyond = true;
                },
                Some(tens) => match tens.checked_add(digit) {
                    None => {
                        beyond = true;
                    },
                    Some(n) => {
                        if n > limit {
                            beyond = true;
                        } else {
                            acc = n;
                        }
                    },
                },
            }
        }
        i += 1;
    }
    assert(v@.subrange(start as int, i as int) == d);
    assert(is_decimal(d));
    if beyond {
        Unsigned::TooLarge
    } else {
        Unsigned::Value(acc)
    }
}

/// The bounds of each field of `split`, in order.
pub(crate) fn split_bounds(v: &Vec<char>, sep: char) -> (r: Vec<(usize, usize)>)
    ensures
        r@.len() > 0,
        r@.len() == split(v@, sep).len(),
        forall|k: int|
            0 <= k < r@.len() ==> (#[trigger] r@[k]).0 <= r@[k].1 <= v@.len() && v@.subrange(
                r@[k].0 as int,
                r@[k].1 as int,
            ) == split(v@, sep)[k],
{
    let mut r: Vec<(usize, usize)> = Vec::new();
    let mut start: usize = 0;
    let mut i: usize = 0;
    assert(v@.subrange(0, 0) == Seq::<char>::empty());
    assert(split(v@.subrange(0, 0), sep) == seq![Seq::<char>::empty()]);
    while i < v.len()
        invariant
            start <= i <= v.len(),
            r@.len() + 1 == split(v@.subrange(0, i as int), sep).len(),
            forall|k: int|
                0 <= k < r@.len() ==> (#[trigger] r@[k]).0 <= r@[k].1 <= v@.len() && v@.subrange(
                    r@[k].0 as int,
                    r@[k].1 as int,
                ) == split(v@.subrange(0, i as int), sep)[k],
            v@.subrange(start as int, i as int) == split(v@.subrange(0, i as int), sep).last(),
        decreases v.len() - i,
    {
        let ghost before = split(v@.subrange(0, i as int), sep);
        assert(v@.subrange(0, i + 1).drop_last() == v@.subrange(0, i as int));
        assert(v@.subrange(0, i + 1).last() == v@[i as int]);
        if v[i] == sep {
            r.push((start, i));
            start = i + 1;
            assert(v@.subrange(start as int, start as int) == Seq::<char>::empty());
        } else {
            assert(v@.subrange(start as int, i + 1) == v@.subrange(start as int, i as int).push(
                v@[i as int],
            ));
        }
        i += 1;
    }
    assert(v@.subrange(0, i as int) == v@);
    r.push((start, i));
    r
}

} // verus!

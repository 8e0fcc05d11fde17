use vstd::prelude::*;

verus! {

/// `s` cut at every `sep`, as `str::split` cuts it: `k` separators give
/// `k + 1` pieces, some of them possibly empty.
pub open spec fn split_on(s: Seq<char>, sep: char) -> Seq<Seq<char>>
    decreases s.len(),
{
    if s.len() == 0 {
        seq![seq![]]
    } else {
        let pieces = split_on(s.drop_last(), sep);
        if s.last() == sep {
            pieces.push(seq![])
        } else {
            pieces.update(pieces.len() - 1, pieces.last().push(s.last()))
        }
    }
}

/// The pieces laid end to end with `sep` between each two neighbours.
pub open spec fn join_with(pieces: Seq<Seq<char>>, sep: char) -> Seq<char>
    decreases pieces.len(),
{
    if pieces.len() == 0 {
        seq![]
    } else if pieces.len() == 1 {
        pieces[0]
    } else {
        join_with(pieces.drop_last(), sep).push(sep) + pieces.last()
    }
}

/// `s` does not hold `c`.
pub open spec fn free_of(s: Seq<char>, c: char) -> bool {
    forall|i: int| 0 <= i < s.len() ==> s[i] != c
}

pub open spec fn is_digit(c: char) -> bool {
    '0' <= c && c <= '9'
}

/// The value of a digit character.
pub open spec fn digit_value(c: char) -> nat {
    ((c as u32) - 48) as nat
}

/// The digit character for `d < 10`.
pub open spec fn digit_char(d: u8) -> char {
    ((d + 48) as u8) as char
}

/// The decimal value of a string of digits.
pub open spec fn decimal_value(s: Seq<char>) -> nat
    decreases s.len(),
{
    if s.len() == 0 {
        0
    } else {
        decimal_value(s.drop_last()) * 10 + digit_value(s.last())
    }
}

/// A byte written in decimal: digits only, at least one, value at most 255.
/// Leading zeros are allowed.
pub open spec fn parse_id(s: Seq<char>) -> Option<u8> {
    if s.len() > 0 && (forall|i: int| 0 <= i < s.len() ==> is_digit(#[trigger] s[i]))
        && decimal_value(s) <= 255 {
        Some(decimal_value(s) as u8)
    } else {
        None
    }
}

/// The shortest decimal form of `n`.
pub open spec fn decimal(n: u8) -> Seq<char> {
    if n < 10 {
        seq![digit_char(n)]
    } else if n < 100 {
        seq![digit_char(n / 10), digit_char(n % 10)]
    } else {
        seq![digit_char(n / 100), digit_char((n / 10) % 10), digit_char(n % 10)]
    }
}

pub proof fn lemma_split_len(s: Seq<char>, sep: char)
    ensures
        split_on(s, sep).len() >= 1,
    decreases s.len(),
{
    if s.len() > 0 {
        lemma_split_len(s.drop_last(), sep);
    }
}

/// Appending text free of the separator extends the last piece.
proof fn lemma_split_extend(s: Seq<char>, q: Seq<char>, sep: char)
    requires
        free_of(q, sep),
    ensures
        ({
            let p = split_on(s, sep);
            split_on(s + q, sep) == p.update(p.len() - 1, p.last() + q)
        }),
    decreases q.len(),
{
    lemma_split_len(s, sep);
    let p = split_on(s, sep);
    if q.len() == 0 {
        assert(s + q =~= s);
        assert(p.last() + q =~= p.last());
        assert(p.update(p.len() - 1, p.last() + q) =~= p);
    } else {
        let q0 = q.drop_last();
        lemma_split_extend(s, q0, sep);
        assert((s + q).drop_last() =~= s + q0);
        assert((s + q).last() == q.last());
        assert(p.last() + q0 + seq![q.last()] =~= p.last() + q);
        assert((p.last() + q0).push(q.last()) =~= p.last() + q);
        let p0 = p.update(p.len() - 1, p.last() + q0);
        assert(p0.update(p0.len() - 1, p0.last().push(q.last())) =~= p.update(
            p.len() - 1,
            p.last() + q,
        ));
    }
}

/// Splitting undoes joining, when no piece holds the separator.
pub proof fn lemma_split_join(pieces: Seq<Seq<char>>, sep: char)
    requires
        pieces.len() >= 1,
        forall|i: int| 0 <= i < pieces.len() ==> free_of(#[trigger] pieces[i], sep),
    ensures
        split_on(join_with(pieces, sep), sep) == pieces,
    decreases pieces.len(),
{
    if pieces.len() == 1 {
        lemma_split_extend(seq![], pieces[0], sep);
        assert(Seq::<char>::empty() + pieces[0] =~= pieces[0]);
        assert(seq![seq![]].update(0, Seq::<char>::empty() + pieces[0]) =~= pieces);
    } else {
        let init = pieces.drop_last();
        let j = join_with(init, sep);
        assert forall|i: int| 0 <= i < init.len() implies free_of(#[trigger] init[i], sep) by {
            assert(init[i] == pieces[i]);
        }
        lemma_split_join(init, sep);
        assert(j.push(sep).drop_last() =~= j);
        assert(split_on(j.push(sep), sep) == init.push(seq![]));
        assert(free_of(pieces[pieces.len() - 1], sep));
        lemma_split_extend(j.push(sep), pieces.last(), sep);
        assert(Seq::<char>::empty() + pieces.last() =~= pieces.last());
        assert(init.push(seq![]).update(init.len() as int, Seq::<char>::empty() + pieces.last())
            =~= pieces);
    }
}

pub proof fn lemma_decimal_parses(n: u8)
    ensures
        parse_id(decimal(n)) == Some(n),
        free_of(decimal(n), '+'),
        free_of(decimal(n), '_'),
{
    let d = decimal(n);
    assert(forall|k: u8| k < 10 ==> is_digit(#[trigger] digit_char(k)) && digit_value(digit_char(k)) == k) by {
        assert forall|k: u8| k < 10 implies is_digit(#[trigger] digit_char(k)) && digit_value(digit_char(k)) == k by {
            assert(((k + 48) as u8) as char as u32 == k + 48);
        }
    }
    if n < 10 {
        assert(d.drop_last() =~= seq![]);
        assert(decimal_value(d.drop_last()) == 0);
        assert(d.last() == digit_char(n));
        assert(digit_value(digit_char(n)) == n);
        assert(decimal_value(d) == n);
        assert(is_digit(d[0]));
    } else if n < 100 {
        let a = digit_char(n / 10);
        let b = digit_char(n % 10);
        assert(digit_value(a) == n / 10);
        assert(digit_value(b) == n % 10);
        assert(seq![a].drop_last() =~= seq![]);
        assert(decimal_value(seq![a].drop_last()) == 0);
        assert(seq![a].last() == a);
        assert(decimal_value(seq![a]) == digit_value(a));
        assert(d.drop_last() =~= seq![a]);
        assert(decimal_value(d) == digit_value(a) * 10 + digit_value(b));
        assert(is_digit(d[0]) && is_digit(d[1]));
        assert(decimal_value(d) == n);
    } else {
        let a = digit_char(n / 100);
        let b = digit_char((n / 10) % 10);
        let c = digit_char(n % 10);
        assert(n / 100 < 10);
        assert(digit_value(a) == n / 100);
        assert(digit_value(b) == (n / 10) % 10);
        assert(digit_value(c) == n % 10);
        assert(seq![a].drop_last() =~= seq![]);
        assert(decimal_value(seq![a].drop_last()) == 0);
        assert(seq![a].last() == a);
        assert(decimal_value(seq![a]) == digit_value(a));
        assert(seq![a, b].drop_last() =~= seq![a]);
        assert(decimal_value(seq![a, b]) == digit_value(a) * 10 + digit_value(b));
        assert(d.drop_last() =~= seq![a, b]);
        assert(decimal_value(d) == (digit_value(a) * 10 + digit_value(b)) * 10 + digit_value(c));
        assert(is_digit(d[0]) && is_digit(d[1]) && is_digit(d[2]));
        assert(decimal_value(d) == n);
    }
    assert(forall|i: int| 0 <= i < d.len() ==> is_digit(#[trigger] d[i]));
}

/// The characters of `s`, one by one.
pub fn chars_of(s: &str) -> (r: Vec<char>)
    ensures
        r@ == s@,
{
    let n = s.unicode_len();
    let mut r: Vec<char> = Vec::new();
    let mut i: usize = 0;
    while i < n
        invariant
            n == s@.len(),
            i <= n,
            r@ == s@.subrange(0, i as int),
        decreases n - i,
    {
        r.push(s.get_char(i));
        i = i + 1;
    }
    assert(r@ =~= s@);
    r
}

/// Cuts `s` at every `sep`, as [`split_on`] says.
pub fn split_chars(s: &Vec<char>, sep: char) -> (r: Vec<Vec<char>>)
    ensures
        r.len() == split_on(s@, sep).len(),
        forall|i: int| 0 <= i < r.len() ==> (#[trigger] r[i])@ == split_on(s@, sep)[i],
{
    let mut done: Vec<Vec<char>> = Vec::new();
    let mut current: Vec<char> = Vec::new();
    let mut i: usize = 0;
    while i < s.len()
        invariant
            i <= s.len(),
            split_on(s@.subrange(0, i as int), sep).len() == done.len() + 1,
            forall|k: int|
                0 <= k < done.len() ==> (#[trigger] done[k])@ == split_on(
                    s@.subrange(0, i as int),
                    sep,
                )[k],
            current@ == split_on(s@.subrange(0, i as int), sep).last(),
        decreases s.len() - i,
    {
        let c = s[i];
        assert(s@.subrange(0, i + 1).drop_last() =~= s@.subrange(0, i as int));
        if c == sep {
            let finished = current;
            done.push(finished);
            current = Vec::new();
        } else {
            current.push(c);
        }
        i = i + 1;
    }
    assert(s@.subrange(0, s.len() as int) =~= s@);
    let ghost before = done@;
    done.push(current);
    assert forall|k: int| 0 <= k < done.len() implies (#[trigger] done[k])@ == split_on(s@, sep)[k] by {
        if k < before.len() {
            assert(done[k] == before[k]);
        }
    }
    done
}

/// Reads a byte written in decimal, as [`parse_id`] says.
pub fn parse_id_chars(s: &Vec<char>) -> (r: Option<u8>)
    ensures
        r == parse_id(s@),
{
    if s.len() == 0 {
        return None;
    }
    let mut value: u32 = 0;
    let mut i: usize = 0;
    while i < s.len()
        invariant
            i <= s.len(),
            forall|k: int| 0 <= k < i ==> is_digit(#[trigger] s@[k]),
            value == decimal_value(s@.subrange(0, i as int)),
            value <= 255,
        decreases s.len() - i,
    {
        let c = s[i];
        assert(s@.subrange(0, i + 1).drop_last() =~= s@.subrange(0, i as int));
        if !('0' <= c && c <= '9') {
            assert(!is_digit(s@[i as int]));
            return None;
        }
        let d: u32 = (c as u32) - 48;
        let next = value * 10 + d;
        if next > 255 {
            proof {
                lemma_decimal_grows(s@, i as int + 1);
            }
            return None;
        }
        value = next;
        i = i + 1;
    }
    assert(s@.subrange(0, s.len() as int) =~= s@);
    Some(value as u8)
}

/// A longer run of digits has at least the value of its prefix.
proof fn lemma_decimal_grows(s: Seq<char>, k: int)
    requires
        0 <= k <= s.len(),
    ensures
        decimal_value(s.subrange(0, k)) <= decimal_value(s),
    decreases s.len() - k,
{
    if k < s.len() {
        lemma_decimal_grows(s, k + 1);
        assert(s.subrange(0, k + 1).drop_last() =~= s.subrange(0, k));
    } else {
        assert(s.subrange(0, k) =~= s);
    }
}

/// Appends the decimal form of `n` to `out`.
pub fn push_decimal(out: &mut Vec<char>, n: u8)
    ensures
        final(out)@ == old(out)@ + decimal(n),
{
    if n >= 100 {
        out.push(((n / 100 + 48) as u8) as char);
    }
    if n >= 10 {
        out.push((((n / 10) % 10 + 48) as u8) as char);
    }
    out.push(((n % 10 + 48) as u8) as char);
    assert(final(out)@ =~= old(out)@ + decimal(n));
}

/// Relies on `String`'s `FromIterator<&char>`: the string holds the
/// characters in order.
#[verifier::external_body]
pub fn string_from_chars(chars: &Vec<char>) -> (r: String)
    ensures
        r@ == chars@,
{
    chars.iter().collect()
}

/// Whether `p` is exactly the three characters `a`, `b`, `c`.
pub fn is_word(p: &Vec<char>, a: char, b: char, c: char) -> (r: bool)
    ensures
        r == (p@ == seq![a, b, c]),
{
    let r = p.len() == 3 && p[0] == a && p[1] == b && p[2] == c;
    if r {
        assert(p@ =~= seq![a, b, c]);
    }
    r
}

/// Whether `a` and `b` hold the same characters.
pub fn same_text(a: &Vec<char>, b: &Vec<char>) -> (r: bool)
    ensures
        r == (a@ == b@),
{
    if a.len() != b.len() {
        return false;
    }
    let mut i: usize = 0;
    while i < a.len()
        invariant
            a.len() == b.len(),
            i <= a.len(),
            a@.subrange(0, i as int) == b@.subrange(0, i as int),
        decreases a.len() - i,
    {
        if a[i] != b[i] {
            assert(a@[i as int] != b@[i as int]);
            return false;
        }
        assert(a@.subrange(0, i + 1) =~= a@.subrange(0, i as int).push(a@[i as int]));
        assert(b@.subrange(0, i + 1) =~= b@.subrange(0, i as int).push(b@[i as int]));
        i = i + 1;
    }
    assert(a@ =~= a@.subrange(0, i as int));
    assert(b@ =~= b@.subrange(0, i as int));
    true
}

} // verus!

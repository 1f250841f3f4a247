use vstd::prelude::*;

verus! {

/// Appends one character to a string (`String::push`).
#[verifier::external_body]
pub(crate) fn push_char(s: &mut String, c: char)
    ensures
        final(s)@ == old(s)@.push(c),
{
    s.push(c)
}

/// A string of one character.
pub(crate) fn char_to_string(c: char) -> (r: String)
    ensures
        r@ == seq![c],
{
    let mut r = String::new();
    push_char(&mut r, c);
    assert(r@ =~= seq![c]);
    r
}

/// Appends the characters of `t` to `s`.
pub(crate) fn push_str(s: &mut String, t: &str)
    ensures
        final(s)@ == old(s)@ + t@,
{
    s.append(t);
}

/// The decimal digit of a value below ten.
pub open spec fn digit_char(d: int) -> char {
    (d + 48) as char
}

/// Decimal representation of a natural number, without leading zeros ("0" for zero).
pub open spec fn decimal(n: nat) -> Seq<char>
    decreases n,
{
    if n < 10 {
        seq![digit_char(n as int)]
    } else {
        decimal(n / 10).push(digit_char((n % 10) as int))
    }
}

/// Whether a character is an ASCII decimal digit.
pub open spec fn is_digit(c: char) -> bool {
    '0' <= c <= '9'
}

/// Value of the decimal digits `s` (most significant first).
pub open spec fn digits_value(s: Seq<char>) -> nat
    decreases s.len(),
{
    if s.len() == 0 {
        0
    } else {
        digits_value(s.drop_last()) * 10 + ((s.last() as int) - 48) as nat
    }
}

/// The text of `usize::from_str`: an optional `+` then one or more decimal digits.
pub open spec fn unsigned_text(s: Seq<char>) -> bool {
    unsigned_digits(s).len() > 0 && forall|i: int|
        0 <= i < unsigned_digits(s).len() ==> is_digit(#[trigger] unsigned_digits(s)[i])
}

/// The digits of an unsigned text: the text without a leading `+`.
pub open spec fn unsigned_digits(s: Seq<char>) -> Seq<char> {
    if s.len() > 0 && s[0] == '+' {
        s.drop_first()
    } else {
        s
    }
}

/// The value that `unsigned_text` denotes.
pub open spec fn unsigned_value(s: Seq<char>) -> nat {
    digits_value(unsigned_digits(s))
}

/// Decimal representation of `n`.
pub(crate) fn usize_to_string(n: usize) -> (r: String)
    ensures
        r@ == decimal(n as nat),
{
    let mut digits: Vec<char> = Vec::new();
    let mut m = n;
    // digits are collected least significant first
    while m >= 10
        invariant
            decimal(n as nat) == decimal(m as nat) + digits@.reverse(),
        decreases m,
    {
        let d = m % 10;
        proof {
            assert(decimal(m as nat) == decimal((m / 10) as nat).push(digit_char((m % 10) as int)));
        }
        let c = digit(d);
        let ghost old_digits = digits@;
        digits.push(c);
        proof {
            assert(digits@.reverse() =~= seq![c] + old_digits.reverse());
            assert(decimal(m as nat) + old_digits.reverse() =~= decimal((m / 10) as nat) + digits@.reverse());
        }
        m = m / 10;
    }
    let mut r = String::new();
    push_char(&mut r, digit(m));
    let mut i = digits.len();
    while i > 0
        invariant
            i <= digits.len(),
            decimal(n as nat) == r@ + digits@.subrange(0, i as int).reverse(),
        decreases i,
    {
        let ghost before = r@;
        i = i - 1;
        push_char(&mut r, digits[i]);
        proof {
            assert(digits@.subrange(0, i + 1).reverse() =~= seq![digits@[i as int]] + digits@.subrange(0, i as int).reverse());
            assert(before + digits@.subrange(0, i + 1).reverse() =~= r@ + digits@.subrange(0, i as int).reverse());
        }
    }
    assert(digits@.subrange(0, 0).reverse() =~= Seq::<char>::empty());
    assert(r@ =~= decimal(n as nat));
    r
}

fn digit(d: usize) -> (c: char)
    requires
        d < 10,
    ensures
        c == digit_char(d as int),
{
    match d {
        0 => '0',
        1 => '1',
        2 => '2',
        3 => '3',
        4 => '4',
        5 => '5',
        6 => '6',
        7 => '7',
        8 => '8',
        _ => '9',
    }
}

proof fn lemma_digits_value_push(s: Seq<char>, c: char)
    ensures
        digits_value(s.push(c)) == digits_value(s) * 10 + ((c as int) - 48) as nat,
{
    assert(s.push(c).drop_last() =~= s);
}

/// Parses a `usize` the way `usize::from_str` does: `None` on malformed text or overflow.
pub(crate) fn parse_usize(s: &str) -> (r: Option<usize>)
    ensures
        r is Some <==> (unsigned_text(s@) && unsigned_value(s@) <= usize::MAX),
        r matches Some(v) ==> v == unsigned_value(s@),
{
    let n = s.unicode_len();
    let mut start: usize = 0;
    if n > 0 && s.get_char(0) == '+' {
        start = 1;
    }
    let ghost body = unsigned_digits(s@);
    assert(body =~= s@.subrange(start as int, n as int));
    if start == n {
        assert(body.len() == 0);
        return None;
    }
    let mut value: usize = 0;
    let mut i = start;
    let mut overflow = false;
    while i < n
        invariant
            start <= i <= n,
            n == s@.len(),
            start < n,
            body =~= s@.subrange(start as int, n as int),
            body == unsigned_digits(s@),
            forall|k: int| start <= k < i ==> is_digit(#[trigger] s@[k]),
            !overflow ==> value == digits_value(s@.subrange(start as int, i as int)),
            overflow ==> digits_value(s@.subrange(start as int, i as int)) > usize::MAX,
        decreases n - i,
    {
        let c = s.get_char(i);
        if !('0' <= c && c <= '9') {
            assert(body[i - start] == s@[i as int]);
            assert(!is_digit(unsigned_digits(s@)[i - start]));
            assert(!unsigned_text(s@));
            return None;
        }
        proof {
            assert(s@.subrange(start as int, i + 1) =~= s@.subrange(start as int, i as int).push(c));
            lemma_digits_value_push(s@.subrange(start as int, i as int), c);
        }
        let d = ((c as u32) - 48) as usize;
        if !overflow {
            if value > (usize::MAX - d) / 10 {
                overflow = true;
                assert(value * 10 + d > usize::MAX) by (nonlinear_arith)
                    requires value > (usize::MAX - d) / 10, d < 10;
            } else {
                assert(value * 10 + d <= usize::MAX) by (nonlinear_arith)
                    requires value <= (usize::MAX - d) / 10, d < 10;
                value = value * 10 + d;
            }
        } else {
            assert(digits_value(s@.subrange(start as int, i as int)) * 10 + d > usize::MAX) by (nonlinear_arith)
                requires digits_value(s@.subrange(start as int, i as int)) > usize::MAX;
        }
        i = i + 1;
    }
    assert(s@.subrange(start as int, n as int) =~= body);
    if overflow {
        None
    } else {
        Some(value)
    }
}

/// The pieces of `s` between the characters `sep` (with empty pieces where two `sep` meet or at
/// either end), as `str::split` gives them.
pub open spec fn split_on(s: Seq<char>, sep: char) -> Seq<Seq<char>>
    decreases s.len(),
{
    if s.len() == 0 {
        seq![Seq::<char>::empty()]
    } else {
        let t = split_on(s.drop_last(), sep);
        if s.last() == sep {
            t.push(Seq::<char>::empty())
        } else {
            t.update(t.len() - 1, t.last().push(s.last()))
        }
    }
}

pub proof fn lemma_split_on_len(s: Seq<char>, sep: char)
    ensures
        split_on(s, sep).len() >= 1,
    decreases s.len(),
{
    if s.len() > 0 {
        lemma_split_on_len(s.drop_last(), sep);
    }
}

/// Appending text without `sep` extends the last piece.
pub proof fn lemma_split_on_append(s: Seq<char>, b: Seq<char>, sep: char)
    requires
        !b.contains(sep),
    ensures
        split_on(s + b, sep) == split_on(s, sep).update(split_on(s, sep).len() - 1, split_on(s, sep).last() + b),
    decreases b.len(),
{
    lemma_split_on_len(s, sep);
    if b.len() == 0 {
        assert(s + b =~= s);
        assert(split_on(s, sep).last() + b =~= split_on(s, sep).last());
        assert(split_on(s, sep).update(split_on(s, sep).len() - 1, split_on(s, sep).last()) =~= split_on(s, sep));
    } else {
        let b0 = b.drop_last();
        assert(!b0.contains(sep)) by {
            if b0.contains(sep) {
                let i = choose|i: int| 0 <= i < b0.len() && b0[i] == sep;
                assert(b[i] == sep);
            }
        }
        assert(b.last() != sep) by {
            assert(b[b.len() - 1] == b.last());
        }
        lemma_split_on_append(s, b0, sep);
        assert((s + b).drop_last() =~= s + b0);
        assert((s + b).last() == b.last());
        let t = split_on(s, sep);
        let t0 = split_on(s + b0, sep);
        lemma_split_on_len(s + b0, sep);
        assert(t0.last() == t.last() + b0);
        assert(t0.last().push(b.last()) =~= t.last() + b);
        assert(split_on(s + b, sep) =~= t.update(t.len() - 1, t.last() + b));
    }
}

/// Text without `sep` is one piece.
pub proof fn lemma_split_on_whole(s: Seq<char>, sep: char)
    requires
        !s.contains(sep),
    ensures
        split_on(s, sep) == seq![s],
{
    lemma_split_on_append(Seq::<char>::empty(), s, sep);
    assert(Seq::<char>::empty() + s =~= s);
    assert(seq![Seq::<char>::empty()].update(0, Seq::<char>::empty() + s) =~= seq![s]);
}

/// A `sep` after some text starts a new empty piece.
pub proof fn lemma_split_on_sep(s: Seq<char>, sep: char)
    ensures
        split_on(s.push(sep), sep) == split_on(s, sep).push(Seq::<char>::empty()),
{
    assert(s.push(sep).drop_last() =~= s);
}

/// A `sep` and then a field without `sep` add the field as a new piece.
pub proof fn lemma_split_on_field(s: Seq<char>, f: Seq<char>, sep: char)
    requires
        !f.contains(sep),
    ensures
        split_on(s.push(sep) + f, sep) == split_on(s, sep).push(f),
{
    lemma_split_on_sep(s, sep);
    lemma_split_on_append(s.push(sep), f, sep);
    let t = split_on(s, sep);
    assert(t.push(Seq::<char>::empty()).update(t.len() as int, Seq::<char>::empty() + f) =~= t.push(f));
}

/// The pieces `t` joined with `sep` between each two.
pub open spec fn join_on(t: Seq<Seq<char>>, sep: char) -> Seq<char>
    decreases t.len(),
{
    if t.len() == 0 {
        Seq::empty()
    } else if t.len() == 1 {
        t[0]
    } else {
        join_on(t.drop_last(), sep).push(sep) + t.last()
    }
}

/// Joining the pieces of a text with the separator gives the text back.
pub proof fn lemma_join_split(s: Seq<char>, sep: char)
    ensures
        join_on(split_on(s, sep), sep) == s,
    decreases s.len(),
{
    if s.len() == 0 {
        assert(split_on(s, sep) == seq![Seq::<char>::empty()]);
        assert(s =~= Seq::<char>::empty());
    } else {
        let s0 = s.drop_last();
        let t = split_on(s0, sep);
        lemma_join_split(s0, sep);
        lemma_split_on_len(s0, sep);
        assert(s =~= s0.push(s.last()));
        if s.last() == sep {
            let u = t.push(Seq::<char>::empty());
            assert(split_on(s, sep) == u);
            assert(u.drop_last() =~= t);
            assert(join_on(u, sep) == join_on(t, sep).push(sep) + Seq::<char>::empty());
            assert(join_on(u, sep) =~= s0.push(sep));
        } else {
            let u = t.update(t.len() - 1, t.last().push(s.last()));
            assert(split_on(s, sep) == u);
            if t.len() == 1 {
                assert(join_on(u, sep) == u[0]);
                assert(join_on(t, sep) == t[0]);
            } else {
                assert(u.drop_last() =~= t.drop_last());
                assert(u.last() == t.last().push(s.last()));
                assert(join_on(t, sep) == join_on(t.drop_last(), sep).push(sep) + t.last());
                assert(join_on(u, sep) == join_on(t.drop_last(), sep).push(sep) + t.last().push(s.last()));
                assert(join_on(u, sep) =~= join_on(t, sep).push(s.last()));
            }
        }
    }
}

/// The decimal text of a number: digits only, and their value is the number.
pub proof fn lemma_decimal(n: nat)
    ensures
        decimal(n).len() >= 1,
        forall|i: int| 0 <= i < decimal(n).len() ==> is_digit(#[trigger] decimal(n)[i]),
        digits_value(decimal(n)) == n,
    decreases n,
{
    if n < 10 {
        assert(decimal(n).drop_last() =~= Seq::<char>::empty());
        assert(digit_char(n as int) as int == n + 48);
        assert(decimal(n).last() == digit_char(n as int));
        assert(digits_value(decimal(n)) == digits_value(Seq::<char>::empty()) * 10 + ((decimal(n).last() as int) - 48) as nat);
    } else {
        lemma_decimal(n / 10);
        let d = decimal(n / 10);
        assert(digit_char((n % 10) as int) as int == n % 10 + 48);
        assert(decimal(n) == d.push(digit_char((n % 10) as int)));
        assert(decimal(n).drop_last() =~= d);
        assert(forall|i: int| 0 <= i < d.len() ==> decimal(n)[i] == d[i]);
        assert((n / 10) * 10 + n % 10 == n) by (nonlinear_arith);
        assert(digits_value(decimal(n)) == digits_value(d) * 10 + ((decimal(n).last() as int) - 48) as nat);
        assert(decimal(n).last() == digit_char((n % 10) as int));
    }
}

/// A decimal text reads back as its number.
pub proof fn lemma_decimal_unsigned(n: nat)
    ensures
        unsigned_text(decimal(n)),
        unsigned_value(decimal(n)) == n,
        !decimal(n).contains(' '),
{
    lemma_decimal(n);
    assert(decimal(n)[0] != '+') by {
        assert(is_digit(decimal(n)[0]));
    }
    assert(unsigned_digits(decimal(n)) == decimal(n));
    if decimal(n).contains(' ') {
        let i = choose|i: int| 0 <= i < decimal(n).len() && decimal(n)[i] == ' ';
        assert(is_digit(decimal(n)[i]));
    }
}

/// Splits `s` at every `sep`.
pub(crate) fn split_at_char(s: &str, sep: char) -> (r: Vec<String>)
    ensures
        r@.map_values(|t: String| t@) == split_on(s@, sep),
{
    let n = s.unicode_len();
    let mut done: Vec<String> = Vec::new();
    let mut cur = String::new();
    let mut i: usize = 0;
    assert(s@.subrange(0, 0) =~= Seq::<char>::empty());
    assert(done@.map_values(|t: String| t@).push(cur@) =~= split_on(s@.subrange(0, 0), sep));
    while i < n
        invariant
            i <= n,
            n == s@.len(),
            done@.map_values(|t: String| t@).push(cur@) == split_on(s@.subrange(0, i as int), sep),
        decreases n - i,
    {
        let c = s.get_char(i);
        let ghost prefix = s@.subrange(0, i as int);
        let ghost next = s@.subrange(0, i + 1);
        proof {
            assert(next.drop_last() =~= prefix);
            assert(next.last() == c);
            lemma_split_on_len(prefix, sep);
        }
        let ghost old_done = done@.map_values(|t: String| t@);
        let ghost old_cur = cur@;
        if c == sep {
            let finished = cur;
            done.push(finished);
            cur = String::new();
            proof {
                assert(done@.map_values(|t: String| t@) =~= old_done.push(old_cur));
                assert(done@.map_values(|t: String| t@).push(cur@) =~= split_on(next, sep));
            }
        } else {
            push_char(&mut cur, c);
            proof {
                assert(done@.map_values(|t: String| t@).push(cur@) =~= split_on(next, sep));
            }
        }
        i = i + 1;
    }
    assert(s@.subrange(0, n as int) =~= s@);
    done.push(cur);
    done
}

/// Whether `s` contains the character `c`.
pub(crate) fn str_contains(s: &str, c: char) -> (r: bool)
    ensures
        r == s@.contains(c),
{
    let n = s.unicode_len();
    let mut i: usize = 0;
    while i < n
        invariant
            i <= n,
            n == s@.len(),
            forall|j: int| 0 <= j < i ==> s@[j] != c,
        decreases n - i,
    {
        if s.get_char(i) == c {
            return true;
        }
        i = i + 1;
    }
    false
}

/// A copy of `s`.
pub(crate) fn copy_str(s: &str) -> (r: String)
    ensures
        r@ == s@,
{
    let mut r = String::new();
    push_str(&mut r, s);
    assert(r@ =~= s@);
    r
}

} // verus!

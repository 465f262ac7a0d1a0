//! Address text: `host:port` strings, their host part, their port part,
//! and decimal port numbers.
use vstd::prelude::*;

verus! {

/// The highest value of a `u16`, as a mathematical integer.
pub open spec fn u16_limit() -> int {
    65535
}

/// The character of a decimal digit `d` (0 to 9).
pub open spec fn digit_char(d: int) -> char {
    if d == 0 {
        '0'
    } else if d == 1 {
        '1'
    } else if d == 2 {
        '2'
    } else if d == 3 {
        '3'
    } else if d == 4 {
        '4'
    } else if d == 5 {
        '5'
    } else if d == 6 {
        '6'
    } else if d == 7 {
        '7'
    } else if d == 8 {
        '8'
    } else {
        '9'
    }
}

/// Whether `c` is an ASCII decimal digit.
pub open spec fn is_digit(c: char) -> bool {
    '0' <= c && c <= '9'
}

/// The value of a decimal digit character.
pub open spec fn digit_value(c: char) -> int {
    c as int - '0' as int
}

/// The decimal text of `n`, most significant digit first, no leading zeros.
pub open spec fn decimal(n: nat) -> Seq<char>
    decreases n,
{
    if n < 10 {
        seq![digit_char(n as int)]
    } else {
        decimal(n / 10).push(digit_char((n % 10) as int))
    }
}

/// Whether every character of `s` is a decimal digit.
pub open spec fn all_digits(s: Seq<char>) -> bool {
    forall|i: int| 0 <= i < s.len() ==> is_digit(#[trigger] s[i])
}

/// The number that a run of decimal digits denotes.
pub open spec fn digits_value(s: Seq<char>) -> nat
    decreases s.len(),
{
    if s.len() == 0 {
        0
    } else {
        (digits_value(s.drop_last()) * 10 + digit_value(s.last())) as nat
    }
}

/// The digits that a port text carries: an optional leading `+` is dropped,
/// as `u16::from_str` does.
pub open spec fn unsigned_digits(s: Seq<char>) -> Seq<char> {
    if s.len() > 0 && s[0] == '+' {
        s.drop_first()
    } else {
        s
    }
}

/// What `str::parse::<u16>` gives for `s`: `Some` of the value when `s` is an
/// optional `+` followed by at least one decimal digit and the value fits a
/// `u16`, `None` otherwise.
pub open spec fn parse_u16_spec(s: Seq<char>) -> Option<u16> {
    let d = unsigned_digits(s);
    if d.len() > 0 && all_digits(d) && digits_value(d) <= u16_limit() {
        Some(digits_value(d) as u16)
    } else {
        None
    }
}

/// Whether `s` holds a `:`.
pub open spec fn has_colon(s: Seq<char>) -> bool {
    exists|i: int| 0 <= i < s.len() && s[i] == ':'
}

/// The text before the first `:` of `s` (all of `s` when it holds none):
/// the first piece of `s.split(":")`.
pub open spec fn before_first_colon(s: Seq<char>) -> Seq<char>
    decreases s.len(),
{
    if s.len() == 0 {
        s
    } else if s[0] == ':' {
        Seq::empty()
    } else {
        seq![s[0]] + before_first_colon(s.drop_first())
    }
}

/// The text after the last `:` of `s` (all of `s` when it holds none):
/// the last piece of `s.split(":")`.
pub open spec fn after_last_colon(s: Seq<char>) -> Seq<char>
    decreases s.len(),
{
    if s.len() == 0 {
        s
    } else if s.last() == ':' {
        Seq::empty()
    } else {
        after_last_colon(s.drop_last()).push(s.last())
    }
}

/// The text `host:port`, as `format!("{}:{}", host, port)` writes it.
pub open spec fn host_port_text(host: Seq<char>, port: u16) -> Seq<char> {
    host + seq![':'] + decimal(port as nat)
}

/// Whether `a` reads exactly `b`.
pub fn same_text(a: &String, b: &str) -> (r: bool)
    ensures
        r == (a@ == b@),
{
    let b_owned = String::from_str(b);
    *a == b_owned
}

/// One decimal digit as a string.
fn digit_text(d: u16) -> (r: &'static str)
    requires
        d < 10,
    ensures
        r@ == seq![digit_char(d as int)],
{
    if d == 0 {
        proof { reveal_strlit("0"); }
        "0"
    } else if d == 1 {
        proof { reveal_strlit("1"); }
        "1"
    } else if d == 2 {
        proof { reveal_strlit("2"); }
        "2"
    } else if d == 3 {
        proof { reveal_strlit("3"); }
        "3"
    } else if d == 4 {
        proof { reveal_strlit("4"); }
        "4"
    } else if d == 5 {
        proof { reveal_strlit("5"); }
        "5"
    } else if d == 6 {
        proof { reveal_strlit("6"); }
        "6"
    } else if d == 7 {
        proof { reveal_strlit("7"); }
        "7"
    } else if d == 8 {
        proof { reveal_strlit("8"); }
        "8"
    } else {
        proof { reveal_strlit("9"); }
        "9"
    }
}

/// Appends the decimal text of `n` to `out`.
fn push_decimal(out: &mut String, n: u16)
    ensures
        final(out)@ == old(out)@ + decimal(n as nat),
    decreases n,
{
    if n >= 10 {
        push_decimal(out, n / 10);
    }
    out.append(digit_text(n % 10));
    proof {
        if n >= 10 {
            assert(decimal(n as nat) == decimal((n / 10) as nat).push(digit_char((n % 10) as int)));
        }
    }
}

/// The address `host:port`.
pub fn join_host_port(host: &str, port: u16) -> (r: String)
    ensures
        r@ == host_port_text(host@, port),
{
    let mut out = String::from_str(host);
    proof { reveal_strlit(":"); }
    out.append(":");
    push_decimal(&mut out, port);
    out
}


/// Every prefix of a run of digits denotes at most what the whole run does.
proof fn lemma_digits_value_prefix(d: Seq<char>, k: int)
    requires
        all_digits(d),
        0 <= k <= d.len(),
    ensures
        digits_value(d.take(k)) <= digits_value(d),
    decreases d.len(),
{
    if k < d.len() {
        assert(d.drop_last().take(k) =~= d.take(k));
        lemma_digits_value_prefix(d.drop_last(), k);
    } else {
        assert(d.take(k) =~= d);
    }
}

/// `str::parse::<u16>`: an optional `+`, then decimal digits whose value fits
/// a `u16`.
pub fn parse_u16(s: &str) -> (r: Option<u16>)
    ensures
        r == parse_u16_spec(s@),
{
    let n = s.unicode_len();
    let mut start: usize = 0;
    if n > 0 && s.get_char(0) == '+' {
        start = 1;
    }
    let ghost d = unsigned_digits(s@);
    assert(d =~= s@.skip(start as int));
    if start == n {
        return None;
    }
    let mut i: usize = start;
    let mut value: u32 = 0;
    while i < n
        invariant
            start <= i <= n,
            start < n,
            n == s@.len(),
            d == s@.skip(start as int),
            d == unsigned_digits(s@),
            all_digits(d.take(i - start)),
            value == digits_value(d.take(i - start)),
            value <= u16_limit(),
        decreases n - i,
    {
        let c = s.get_char(i);
        assert(d[i - start] == c);
        if c < '0' || c > '9' {
            assert(!is_digit(d[i - start]));
            assert(!all_digits(d));
            return None;
        }
        let ghost k = i - start;
        assert(d.take(k + 1).drop_last() =~= d.take(k));
        assert(d.take(k + 1).last() == c);
        value = value * 10 + (c as u32 - '0' as u32);
        assert(all_digits(d.take(k + 1)));
        assert(value == digits_value(d.take(k + 1)));
        if value > 65535 {
            proof {
                if all_digits(d) {
                    lemma_digits_value_prefix(d, k + 1);
                }
            }
            return None;
        }
        i = i + 1;
    }
    assert(d.take(n - start) =~= d);
    Some(value as u16)
}

/// The host part of an address: the text before its first `:`.
pub fn host_part(s: &str) -> (r: String)
    ensures
        r@ == before_first_colon(s@),
{
    let n = s.unicode_len();
    let mut i: usize = 0;
    assert(s@.skip(0) =~= s@);
    assert(s@.take(0) =~= Seq::<char>::empty());
    while i < n && s.get_char(i) != ':'
        invariant
            i <= n,
            n == s@.len(),
            before_first_colon(s@) == s@.take(i as int) + before_first_colon(s@.skip(i as int)),
        decreases n - i,
    {
        assert(s@.skip(i as int).drop_first() =~= s@.skip(i + 1));
        assert(s@.take(i as int) + seq![s@[i as int]] =~= s@.take(i + 1));
        assert(before_first_colon(s@.skip(i as int)) == seq![s@[i as int]] + before_first_colon(
            s@.skip(i + 1),
        ));
        i = i + 1;
    }
    proof {
        if i == n {
            assert(s@.skip(i as int) =~= Seq::<char>::empty());
        } else {
            assert(s@.skip(i as int)[0] == ':');
        }
        assert(before_first_colon(s@.skip(i as int)) == Seq::<char>::empty());
        assert(s@.take(i as int) + Seq::<char>::empty() =~= s@.take(i as int));
    }
    assert(s@.subrange(0, i as int) =~= s@.take(i as int));
    String::from_str(s.substring_char(0, i))
}

/// The port part of an address: the text after its last `:`, or `None` when
/// the address holds no `:`.
pub fn port_part(s: &str) -> (r: Option<String>)
    ensures
        r is Some <==> has_colon(s@),
        r matches Some(t) ==> t@ == after_last_colon(s@),
{
    let n = s.unicode_len();
    let mut i: usize = n;
    assert(s@.take(n as int) =~= s@);
    assert(s@.skip(n as int) =~= Seq::<char>::empty());
    while i > 0
        invariant
            i <= n,
            n == s@.len(),
            forall|j: int| i <= j < n ==> s@[j] != ':',
            after_last_colon(s@) == after_last_colon(s@.take(i as int)) + s@.skip(i as int),
        decreases i,
    {
        let c = s.get_char(i - 1);
        if c == ':' {
            assert(s@.take(i as int).last() == ':');
            assert(Seq::<char>::empty() + s@.skip(i as int) =~= s@.skip(i as int));
            assert(s@.subrange(i as int, n as int) =~= s@.skip(i as int));
            return Some(String::from_str(s.substring_char(i, n)));
        }
        assert(s@.take(i as int).drop_last() =~= s@.take(i - 1));
        assert(after_last_colon(s@.take(i - 1)).push(c) + s@.skip(i as int)
            =~= after_last_colon(s@.take(i - 1)) + s@.skip(i - 1));
        i = i - 1;
    }
    None
}

/// A digit's character is a digit and denotes it.
proof fn lemma_digit_char(d: int)
    requires
        0 <= d < 10,
    ensures
        is_digit(digit_char(d)),
        digit_value(digit_char(d)) == d,
        digit_char(d) != ':',
        digit_char(d) != '+',
{
}

/// A port's decimal text is a nonempty run of digits, without `:` or `+`,
/// that denotes the port.
pub proof fn lemma_decimal_digits(n: nat)
    ensures
        decimal(n).len() > 0,
        all_digits(decimal(n)),
        digits_value(decimal(n)) == n,
        !has_colon(decimal(n)),
        decimal(n)[0] != '+',
    decreases n,
{
    lemma_digit_char((n % 10) as int);
    if n >= 10 {
        lemma_decimal_digits(n / 10);
        let d = decimal(n);
        assert(d == decimal(n / 10).push(digit_char((n % 10) as int)));
        assert(d.drop_last() =~= decimal(n / 10));
        assert(d.last() == digit_char((n % 10) as int));
        assert(digits_value(d) == digits_value(decimal(n / 10)) * 10 + (n % 10));
        assert(d[0] == decimal(n / 10)[0]);
        assert forall|i: int| 0 <= i < d.len() implies is_digit(#[trigger] d[i]) && d[i] != ':' by {
            if i < d.len() - 1 {
                assert(d[i] == decimal(n / 10)[i]);
            }
        }
    } else {
        let d = decimal(n);
        assert(d.drop_last() =~= Seq::<char>::empty());
        assert(digits_value(Seq::<char>::empty()) == 0);
        assert(d.last() == digit_char(n as int));
        assert(digits_value(d) == digit_value(d.last()));
    }
}

/// The last piece after a `:` is all of a colon-free tail.
proof fn lemma_after_last_colon_tail(a: Seq<char>, b: Seq<char>)
    requires
        a.len() > 0,
        a.last() == ':',
        !has_colon(b),
    ensures
        after_last_colon(a + b) == b,
    decreases b.len(),
{
    if b.len() == 0 {
        assert(a + b =~= a);
    } else {
        assert((a + b).drop_last() =~= a + b.drop_last());
        assert((a + b).last() == b[b.len() - 1]);
        assert(!has_colon(b.drop_last())) by {
            if has_colon(b.drop_last()) {
                let i = choose|i: int| 0 <= i < b.drop_last().len() && b.drop_last()[i] == ':';
                assert(b[i] == ':');
            }
        }
        lemma_after_last_colon_tail(a, b.drop_last());
        assert(b.drop_last().push(b.last()) =~= b);
    }
}

/// The first piece before a `:` is all of a colon-free head.
proof fn lemma_before_first_colon_head(h: Seq<char>, rest: Seq<char>)
    requires
        !has_colon(h),
    ensures
        before_first_colon(h + seq![':'] + rest) == h,
    decreases h.len(),
{
    let s = h + seq![':'] + rest;
    if h.len() == 0 {
        assert(s[0] == ':');
    } else {
        assert(s[0] == h[0]);
        assert(s.drop_first() =~= h.drop_first() + seq![':'] + rest);
        assert(!has_colon(h.drop_first())) by {
            if has_colon(h.drop_first()) {
                let i = choose|i: int| 0 <= i < h.drop_first().len() && h.drop_first()[i] == ':';
                assert(h[i + 1] == ':');
            }
        }
        lemma_before_first_colon_head(h.drop_first(), rest);
        assert(seq![h[0]] + h.drop_first() =~= h);
    }
}

/// Reading back a joined address: the text after its last `:` parses to the
/// port it was joined with, and, for a host without `:`, the text before its
/// first `:` is that host.
pub proof fn lemma_host_port_round_trip(host: Seq<char>, port: u16)
    ensures
        has_colon(host_port_text(host, port)),
        after_last_colon(host_port_text(host, port)) == decimal(port as nat),
        parse_u16_spec(after_last_colon(host_port_text(host, port))) == Some(port),
        !has_colon(host) ==> before_first_colon(host_port_text(host, port)) == host,
{
    let s = host_port_text(host, port);
    let a = host + seq![':'];
    lemma_decimal_digits(port as nat);
    assert(s =~= a + decimal(port as nat));
    assert(s[host.len() as int] == ':');
    lemma_after_last_colon_tail(a, decimal(port as nat));
    assert(unsigned_digits(decimal(port as nat)) == decimal(port as nat));
    if !has_colon(host) {
        lemma_before_first_colon_head(host, decimal(port as nat));
    }
}

} // verus!

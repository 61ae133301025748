//! Deterministic text building: decimal rendering of counters and ports, and
//! the `"<host>:<port>"` endpoint form used throughout the registries.

use vstd::prelude::*;

verus! {

/// The character for one decimal digit value.
pub open spec fn digit_char(d: int) -> char {
    if d == 0 {
        '0'
    } else if d == 1 {
        '1'
    } else if d == 2 {
        '2'
    } else if d == 3 {
        '3'
    } else if d == 4 {
        '4'
    } else if d == 5 {
        '5'
    } else if d == 6 {
        '6'
    } else if d == 7 {
        '7'
    } else if d == 8 {
        '8'
    } else {
        '9'
    }
}

/// The usual decimal rendering of a number: most significant digit first,
/// no leading zeros (a single `'0'` for zero).
pub open spec fn dec_digits(n: nat) -> Seq<char>
    decreases n,
{
    if n < 10 {
        seq![digit_char(n as int)]
    } else {
        dec_digits(n / 10) + seq![digit_char((n % 10) as int)]
    }
}

/// A one-character string for one decimal digit value.
fn digit_str(d: u64) -> (r: &'static str)
    requires
        d < 10,
    ensures
        r@ == seq![digit_char(d as int)],
{
    proof {
        reveal_strlit("0");
        reveal_strlit("1");
        reveal_strlit("2");
        reveal_strlit("3");
        reveal_strlit("4");
        reveal_strlit("5");
        reveal_strlit("6");
        reveal_strlit("7");
        reveal_strlit("8");
        reveal_strlit("9");
    }
    let r = match d {
        0 => "0",
        1 => "1",
        2 => "2",
        3 => "3",
        4 => "4",
        5 => "5",
        6 => "6",
        7 => "7",
        8 => "8",
        _ => "9",
    };
    proof {
        assert(r@ =~= seq![digit_char(d as int)]);
    }
    r
}

/// Renders a number in decimal.
pub fn dec_u64(n: u64) -> (r: String)
    ensures
        r@ == dec_digits(n as nat),
    decreases n,
{
    if n < 10 {
        String::from_str(digit_str(n))
    } else {
        let mut s = dec_u64(n / 10);
        s.append(digit_str(n % 10));
        s
    }
}

/// Renders a 32-bit number in decimal.
pub fn dec_u32(n: u32) -> (r: String)
    ensures
        r@ == dec_digits(n as nat),
{
    dec_u64(n as u64)
}

/// The character for one hexadecimal digit value, lower case.
pub open spec fn hex_char(d: int) -> char {
    if d < 10 {
        digit_char(d)
    } else if d == 10 {
        'a'
    } else if d == 11 {
        'b'
    } else if d == 12 {
        'c'
    } else if d == 13 {
        'd'
    } else if d == 14 {
        'e'
    } else {
        'f'
    }
}

/// The hexadecimal rendering of a number, lower case, no leading zeros
/// (a single `'0'` for zero).
pub open spec fn hex_digits(n: nat) -> Seq<char>
    decreases n,
{
    if n < 16 {
        seq![hex_char(n as int)]
    } else {
        hex_digits(n / 16) + seq![hex_char((n % 16) as int)]
    }
}

/// A one-character string for one hexadecimal digit value.
fn hex_digit_str(d: u16) -> (r: &'static str)
    requires
        d < 16,
    ensures
        r@ == seq![hex_char(d as int)],
{
    if d < 10 {
        digit_str(d as u64)
    } else {
        proof {
            reveal_strlit("a");
            reveal_strlit("b");
            reveal_strlit("c");
            reveal_strlit("d");
            reveal_strlit("e");
            reveal_strlit("f");
        }
        let r = match d {
            10 => "a",
            11 => "b",
            12 => "c",
            13 => "d",
            14 => "e",
            _ => "f",
        };
        proof {
            assert(r@ =~= seq![hex_char(d as int)]);
        }
        r
    }
}

/// Renders a 16-bit number in lower-case hexadecimal.
pub fn hex_u16(n: u16) -> (r: String)
    ensures
        r@ == hex_digits(n as nat),
    decreases n,
{
    if n < 16 {
        String::from_str(hex_digit_str(n))
    } else {
        let mut s = hex_u16(n / 16);
        s.append(hex_digit_str(n % 16));
        s
    }
}

/// The inner items of the bracketed list form: decimal numbers joined by `", "`.
pub open spec fn u32_list_items(s: Seq<u32>) -> Seq<char>
    decreases s.len(),
{
    if s.len() == 0 {
        Seq::<char>::empty()
    } else if s.len() == 1 {
        dec_digits(s[0] as nat)
    } else {
        u32_list_items(s.drop_last()) + seq![',', ' '] + dec_digits(s.last() as nat)
    }
}

/// The bracketed list form of a number sequence: `"[1, 2, 3]"` (`"[]"` when empty).
pub open spec fn u32_list_text(s: Seq<u32>) -> Seq<char> {
    seq!['['] + u32_list_items(s) + seq![']']
}

/// Renders a number list in the bracketed form `"[1, 2, 3]"`.
pub fn u32_list(s: &Vec<u32>) -> (r: String)
    ensures
        r@ == u32_list_text(s@),
{
    proof {
        reveal_strlit("[");
        reveal_strlit("]");
        reveal_strlit(", ");
        assert("["@ =~= seq!['[']);
        assert("]"@ =~= seq![']']);
        assert(", "@ =~= seq![',', ' ']);
    }
    let mut body = String::new();
    let n = s.len();
    let mut i: usize = 0;
    while i < n
        invariant
            n == s@.len(),
            i <= n,
            body@ == u32_list_items(s@.take(i as int)),
            "["@ == seq!['['],
            "]"@ == seq![']'],
            ", "@ == seq![',', ' '],
        decreases n - i,
    {
        if i > 0 {
            body.append(", ");
        }
        let d = dec_u32(s[i]);
        body.append(d.as_str());
        proof {
            assert(s@.take(i as int + 1).drop_last() =~= s@.take(i as int));
            assert(s@.take(i as int + 1).last() == s@[i as int]);
            assert(body@ =~= u32_list_items(s@.take(i as int + 1)));
        }
        i = i + 1;
    }
    let mut r = String::from_str("[");
    r.append(body.as_str());
    r.append("]");
    proof {
        assert(s@.take(n as int) =~= s@);
        assert(r@ =~= u32_list_text(s@));
    }
    r
}

/// Strict lexicographic order on character sequences, by scalar value.
pub open spec fn lex_lt(a: Seq<char>, b: Seq<char>) -> bool
    decreases a.len(),
{
    if b.len() == 0 {
        false
    } else if a.len() == 0 {
        true
    } else if a[0] != b[0] {
        (a[0] as u32) < (b[0] as u32)
    } else {
        lex_lt(a.drop_first(), b.drop_first())
    }
}

/// Non-strict lexicographic order.
pub open spec fn lex_leq(a: Seq<char>, b: Seq<char>) -> bool {
    lex_lt(a, b) || a == b
}

/// Two distinct sequences are ordered one way or the other.
pub proof fn lemma_lex_trichotomy(a: Seq<char>, b: Seq<char>)
    ensures
        a == b || lex_lt(a, b) || lex_lt(b, a),
    decreases a.len(),
{
    if a.len() == 0 || b.len() == 0 {
        if a.len() == b.len() {
            assert(a =~= b);
        }
    } else if a[0] == b[0] {
        let ad = a.drop_first();
        let bd = b.drop_first();
        lemma_lex_trichotomy(ad, bd);
        if ad == bd {
            assert forall|i: int| 0 <= i < a.len() implies a[i] == b[i] by {
                if i > 0 {
                    assert(ad[i - 1] == a[i]);
                    assert(bd[i - 1] == b[i]);
                }
            }
            assert(a =~= b);
        }
    } else {
        vstd::utf8::char_u32_cast(a[0], a[0] as u32);
        vstd::utf8::char_u32_cast(b[0], b[0] as u32);
        assert((a[0] as u32) != (b[0] as u32));
    }
}

fn str_lt_from(a: &str, b: &str, i: usize, la: usize, lb: usize) -> (r: bool)
    requires
        i <= la,
        i <= lb,
        la == a@.len(),
        lb == b@.len(),
    ensures
        r == lex_lt(a@.skip(i as int), b@.skip(i as int)),
    decreases la - i,
{
    if i == lb {
        false
    } else if i == la {
        true
    } else {
        let ca = a.get_char(i);
        let cb = b.get_char(i);
        if ca != cb {
            (ca as u32) < (cb as u32)
        } else {
            let r = str_lt_from(a, b, i + 1, la, lb);
            proof {
                assert(a@.skip(i as int).drop_first() =~= a@.skip(i as int + 1));
                assert(b@.skip(i as int).drop_first() =~= b@.skip(i as int + 1));
            }
            r
        }
    }
}

/// Compares two strings in the strict lexicographic order of their characters.
pub fn str_lt(a: &str, b: &str) -> (r: bool)
    ensures
        r == lex_lt(a@, b@),
{
    let la = a.unicode_len();
    let lb = b.unicode_len();
    let r = str_lt_from(a, b, 0, la, lb);
    proof {
        assert(a@.skip(0) =~= a@);
        assert(b@.skip(0) =~= b@);
    }
    r
}

/// The sequence is in non-strict lexicographic order.
pub open spec fn sorted_lex(s: Seq<Seq<char>>) -> bool {
    forall|i: int, j: int| 0 <= i < j < s.len() ==> lex_leq(s[i], s[j])
}

/// Sorts strings into lexicographic order. The result is the unique ordered
/// arrangement of the given strings: sorted, with the same strings as often as
/// given.
pub fn sort_strings(v: Vec<String>) -> (r: Vec<String>)
    ensures
        sorted_lex(r.deep_view()),
        r.deep_view().to_multiset() == v.deep_view().to_multiset(),
{
    broadcast use vstd::seq_lib::group_to_multiset_ensures;
    broadcast use vstd::multiset::group_multiset_axioms;

    let mut rest = v;
    let mut out: Vec<String> = Vec::new();
    let ghost orig = v.deep_view().to_multiset();
    proof {
        assert(out.deep_view() =~= Seq::<Seq<char>>::empty());
        assert(out.deep_view().to_multiset().add(rest.deep_view().to_multiset()) =~= orig);
    }
    while rest.len() > 0
        invariant
            out.deep_view().to_multiset().add(rest.deep_view().to_multiset()) =~= orig,
            sorted_lex(out.deep_view()),
            forall|i: int, j: int|
                0 <= i < out.deep_view().len() && 0 <= j < rest.deep_view().len() ==> lex_leq(
                    out.deep_view()[i],
                    rest.deep_view()[j],
                ),
        decreases rest.len(),
    {
        broadcast use vstd::seq_lib::group_to_multiset_ensures;
        broadcast use vstd::multiset::group_multiset_axioms;

        let ghost dv = rest.deep_view();
        let n = rest.len();
        let mut m: usize = 0;
        let mut j: usize = 1;
        proof {
            lemma_lex_irrefl(dv[0]);
        }
        while j < n
            invariant
                n == rest@.len(),
                dv == rest.deep_view(),
                m < j <= n,
                forall|q: int| 0 <= q < j ==> !lex_lt(dv[q], dv[m as int]),
            decreases n - j,
        {
            proof {
                assert(dv[j as int] == rest@[j as int]@);
                assert(dv[m as int] == rest@[m as int]@);
            }
            if str_lt(rest[j].as_str(), rest[m].as_str()) {
                proof {
                    let jj = j as int;
                    assert forall|q: int| 0 <= q <= jj implies !lex_lt(dv[q], dv[jj]) by {
                        if q == jj {
                            lemma_lex_irrefl(dv[jj]);
                        } else if lex_lt(dv[q], dv[jj]) {
                            lemma_lex_lt_trans(dv[q], dv[jj], dv[m as int]);
                        }
                    }
                }
                m = j;
            }
            j = j + 1;
        }
        let ghost old_out = out.deep_view();
        let x = rest.remove(m);
        out.push(x);
        proof {
            let xv = x@;
            assert(xv == dv[m as int]);
            assert(rest.deep_view() =~= dv.remove(m as int));
            assert(out.deep_view() =~= old_out.push(xv));
            assert(dv.contains(xv));
            assert(dv.to_multiset().count(xv) > 0);
            assert(out.deep_view().to_multiset() =~= old_out.to_multiset().insert(xv));
            assert(rest.deep_view().to_multiset() =~= dv.to_multiset().remove(xv));
            assert(out.deep_view().to_multiset().add(rest.deep_view().to_multiset()) =~= orig);
            assert forall|q: int| 0 <= q < rest.deep_view().len() implies lex_leq(
                xv,
                rest.deep_view()[q],
            ) by {
                let oq: int = if q < m { q } else { q + 1 };
                assert(rest.deep_view()[q] == dv[oq]);
                lemma_lex_trichotomy(xv, dv[oq]);
            }
            assert forall|i: int, j2: int|
                0 <= i < out.deep_view().len() && 0 <= j2 < rest.deep_view().len() implies lex_leq(
                out.deep_view()[i],
                rest.deep_view()[j2],
            ) by {
                let oq: int = if j2 < m { j2 } else { j2 + 1 };
                assert(rest.deep_view()[j2] == dv[oq]);
                if i < old_out.len() {
                    assert(out.deep_view()[i] == old_out[i]);
                    assert(lex_leq(old_out[i], dv[oq]));
                }
            }
            assert forall|i: int, j2: int|
                0 <= i < j2 < out.deep_view().len() implies lex_leq(
                out.deep_view()[i],
                out.deep_view()[j2],
            ) by {
                if j2 == old_out.len() as int && i < j2 {
                    assert(lex_leq(old_out[i], dv[m as int]));
                }
            }
        }
    }
    proof {
        assert(rest.deep_view() =~= Seq::<Seq<char>>::empty());
        assert(out.deep_view().to_multiset().add(rest.deep_view().to_multiset()) =~= out.deep_view().to_multiset());
    }
    out
}

/// Strict lexicographic order never relates a sequence to itself.
pub proof fn lemma_lex_irrefl(a: Seq<char>)
    ensures
        !lex_lt(a, a),
    decreases a.len(),
{
    if a.len() > 0 {
        lemma_lex_irrefl(a.drop_first());
    }
}

/// Strict lexicographic order is transitive.
pub proof fn lemma_lex_lt_trans(a: Seq<char>, b: Seq<char>, c: Seq<char>)
    requires
        lex_lt(a, b),
        lex_lt(b, c),
    ensures
        lex_lt(a, c),
    decreases a.len() + b.len() + c.len(),
{
    if b.len() == 0 || c.len() == 0 {
    } else if a.len() == 0 {
    } else {
        if a[0] == b[0] && b[0] == c[0] {
            lemma_lex_lt_trans(a.drop_first(), b.drop_first(), c.drop_first());
        }
    }
}

/// The endpoint form `"<host>:<port>"`.
pub open spec fn endpoint_text(host: Seq<char>, port: nat) -> Seq<char> {
    host + seq![':'] + dec_digits(port)
}

/// Builds the endpoint string `"<host>:<port>"`.
pub fn endpoint(host: &str, port: u32) -> (r: String)
    ensures
        r@ == endpoint_text(host@, port as nat),
{
    let mut s = String::from_str(host);
    proof {
        reveal_strlit(":");
        assert(":"@ =~= seq![':']);
    }
    s.append(":");
    let p = dec_u32(port);
    s.append(p.as_str());
    s
}

} // verus!

//! IPv4 dotted-quad addresses and the reverse-lookup names built from them.
use vstd::prelude::*;
use vstd::string::*;
use crate::decimal::{
    all_digits, dec, digit_of, digits_value, is_digit, lemma_dec_injective, lemma_dec_of_value,
    lemma_dec_shape, lemma_value_of_dec, push_decimal,
};

verus! {

/// An IPv4 address as its four octets, most significant first.
#[derive(Clone, Copy, Debug, PartialEq, Eq)]
pub struct Address {
    pub octets: [u8; 4],
}

/// The dotted-quad spelling of the octets `a.b.c.d`: each octet in decimal,
/// without leading zeros.
pub open spec fn dotted(a: u8, b: u8, c: u8, d: u8) -> Seq<char> {
    dec(a as nat) + seq!['.'] + dec(b as nat) + seq!['.'] + dec(c as nat) + seq!['.'] + dec(
        d as nat,
    )
}

/// The reverse-lookup name of `a.b.c.d`: `d.c.b.a.in-addr.arpa`.
pub open spec fn reverse_name(a: u8, b: u8, c: u8, d: u8) -> Seq<char> {
    dotted(d, c, b, a) + ".in-addr.arpa"@
}

impl Address {
    pub open spec fn text(self) -> Seq<char> {
        dotted(self.octets@[0], self.octets@[1], self.octets@[2], self.octets@[3])
    }

    pub open spec fn reverse_text(self) -> Seq<char> {
        reverse_name(self.octets@[0], self.octets@[1], self.octets@[2], self.octets@[3])
    }

    /// The address with the given octets, most significant first.
    pub fn new(a: u8, b: u8, c: u8, d: u8) -> (r: Address)
        ensures
            r.octets@ == seq![a, b, c, d],
    {
        let r = Address { octets: [a, b, c, d] };
        assert(r.octets@ =~= seq![a, b, c, d]);
        r
    }

    /// The four octets, most significant first.
    pub fn octets(&self) -> (r: [u8; 4])
        ensures
            r@ == self.octets@,
    {
        self.octets
    }

    /// The reverse-lookup name for a PTR query: the octets in reverse order,
    /// followed by `.in-addr.arpa`.
    pub fn reverse_query_name(&self) -> (r: String)
        ensures
            r@ == self.reverse_text(),
    {
        let mut s = String::new();
        push_decimal(&mut s, self.octets[3]);
        s.push('.');
        push_decimal(&mut s, self.octets[2]);
        s.push('.');
        push_decimal(&mut s, self.octets[1]);
        s.push('.');
        push_decimal(&mut s, self.octets[0]);
        s.append(".in-addr.arpa");
        assert(s@ =~= self.reverse_text());
        s
    }

    /// The DNS-over-HTTPS query URL asking `endpoint` for the PTR record of
    /// this address.
    pub fn lookup_url(&self, endpoint: &str) -> (r: String)
        ensures
            r@ == endpoint@ + "?name="@ + self.reverse_text() + "&type=PTR"@,
    {
        let name = self.reverse_query_name();
        let mut s = String::from_str(endpoint);
        s.append("?name=");
        s.append(name.as_str());
        s.append("&type=PTR");
        assert(s@ =~= endpoint@ + "?name="@ + self.reverse_text() + "&type=PTR"@);
        s
    }
}

/// `t` stands at `start` in `cs` and is followed by a dot or by the end.
pub open spec fn delimited_at(cs: Seq<char>, start: int, t: Seq<char>) -> bool {
    &&& 0 <= start
    &&& start + t.len() <= cs.len()
    &&& cs.subrange(start, start + t.len()) == t
    &&& (start + t.len() == cs.len() || cs[start + t.len()] == '.')
}

spec fn run_bound(k: int) -> nat {
    if k <= 0 {
        1
    } else if k == 1 {
        10
    } else if k == 2 {
        100
    } else if k == 3 {
        1000
    } else {
        10000
    }
}

/// At most one octet spelling is delimited at a given place.
proof fn lemma_delimited_unique(cs: Seq<char>, start: int, n: nat, m: nat)
    requires
        delimited_at(cs, start, dec(n)),
        delimited_at(cs, start, dec(m)),
    ensures
        n == m,
{
    lemma_dec_shape(n);
    lemma_dec_shape(m);
    let ln = dec(n).len() as int;
    let lm = dec(m).len() as int;
    if ln < lm {
        assert(cs[start + ln] == dec(m)[ln]);
        assert(is_digit(dec(m)[ln]));
    } else if lm < ln {
        assert(cs[start + lm] == dec(n)[lm]);
        assert(is_digit(dec(n)[lm]));
    }
    lemma_dec_injective(n, m);
}

/// A spelling delimited at `start` covers exactly the run of digits there.
proof fn lemma_run_is_spelling(cs: Seq<char>, start: int, j: int, n: nat)
    requires
        delimited_at(cs, start, dec(n)),
        n < 256,
        0 <= start <= j <= cs.len(),
        all_digits(cs.subrange(start, j)),
        j == cs.len() || j - start >= 4 || !is_digit(cs[j]),
    ensures
        start + dec(n).len() == j,
{
    lemma_dec_shape(n);
    let l = dec(n).len() as int;
    if start + l < j {
        assert(cs.subrange(start, j)[l] == cs[start + l]);
        assert(is_digit(cs.subrange(start, j)[l]));
    } else if start + l > j {
        assert(cs[j] == dec(n)[j - start]);
        assert(is_digit(dec(n)[j - start]));
    }
}

/// Reads the octet spelled at `start`, which a dot or the end must follow.
fn parse_field(cs: &Vec<char>, start: usize) -> (r: Option<(u8, usize)>)
    requires
        start <= cs.len(),
    ensures
        r matches Some((n, end)) ==> end == start + dec(n as nat).len() && delimited_at(
            cs@,
            start as int,
            dec(n as nat),
        ),
        r is None ==> forall|n: u8| !delimited_at(cs@, start as int, #[trigger] dec(n as nat)),
{
    let mut j: usize = start;
    let mut v: u32 = 0;
    while j < cs.len() && j - start < 4 && digit_of(cs[j]).is_some()
        invariant
            start <= j <= cs.len(),
            j - start <= 4,
            all_digits(cs@.subrange(start as int, j as int)),
            v == digits_value(cs@.subrange(start as int, j as int)),
            v < run_bound(j - start),
        decreases cs.len() - j,
    {
        let d = digit_of(cs[j]).unwrap();
        let ghost t = cs@.subrange(start as int, j as int);
        let ghost t2 = cs@.subrange(start as int, j + 1);
        assert(t2.drop_last() =~= t);
        assert(t2.last() == cs@[j as int]);
        v = v * 10 + d as u32;
        j = j + 1;
        assert(all_digits(t2)) by {
            assert forall|i: int| 0 <= i < t2.len() implies #[trigger] is_digit(t2[i]) by {
                if i < t.len() {
                    assert(t2[i] == t[i]);
                }
            }
        }
    }
    let ghost t = cs@.subrange(start as int, j as int);
    let k = j - start;
    if k == 0 || k > 3 || (k > 1 && cs[start] == '0') || v > 255 || (j < cs.len() && cs[j]
        != '.') {
        proof {
            assert forall|n: u8| !delimited_at(cs@, start as int, #[trigger] dec(n as nat)) by {
                if delimited_at(cs@, start as int, dec(n as nat)) {
                    lemma_run_is_spelling(cs@, start as int, j as int, n as nat);
                    lemma_dec_shape(n as nat);
                    lemma_value_of_dec(n as nat);
                    assert(t == dec(n as nat));
                    assert(cs@[start as int] == t[0]);
                }
            }
        }
        return None;
    }
    proof {
        assert(t[0] == cs@[start as int]);
        lemma_dec_of_value(t);
    }
    Some((v as u8, j))
}

proof fn lemma_dotted_fields(cs: Seq<char>, a: u8, b: u8, c: u8, d: u8)
    requires
        cs == dotted(a, b, c, d),
    ensures
        ({
            let e1 = dec(a as nat).len() as int;
            let e2 = e1 + 1 + dec(b as nat).len();
            let e3 = e2 + 1 + dec(c as nat).len();
            &&& delimited_at(cs, 0, dec(a as nat))
            &&& e1 < cs.len() && cs[e1] == '.'
            &&& delimited_at(cs, e1 + 1, dec(b as nat))
            &&& e2 < cs.len() && cs[e2] == '.'
            &&& delimited_at(cs, e2 + 1, dec(c as nat))
            &&& e3 < cs.len() && cs[e3] == '.'
            &&& delimited_at(cs, e3 + 1, dec(d as nat))
            &&& e3 + 1 + dec(d as nat).len() == cs.len()
        }),
        cs.len() <= 15,
{
    lemma_dec_shape(a as nat);
    lemma_dec_shape(b as nat);
    lemma_dec_shape(c as nat);
    lemma_dec_shape(d as nat);
    let da = dec(a as nat);
    let db = dec(b as nat);
    let dc = dec(c as nat);
    let dd = dec(d as nat);
    let e1 = da.len() as int;
    let e2 = e1 + 1 + db.len();
    let e3 = e2 + 1 + dc.len();
    assert(cs.subrange(0, e1) =~= da);
    assert(cs.subrange(e1 + 1, e2) =~= db);
    assert(cs.subrange(e2 + 1, e3) =~= dc);
    assert(cs.subrange(e3 + 1, cs.len() as int) =~= dd);
}

/// A dotted-quad spelling determines its four octets.
pub proof fn lemma_dotted_injective(a: u8, b: u8, c: u8, d: u8, e: u8, f: u8, g: u8, h: u8)
    requires
        dotted(a, b, c, d) == dotted(e, f, g, h),
    ensures
        a == e && b == f && c == g && d == h,
{
    let cs = dotted(a, b, c, d);
    lemma_dotted_fields(cs, a, b, c, d);
    lemma_dotted_fields(cs, e, f, g, h);
    lemma_delimited_unique(cs, 0, a as nat, e as nat);
    let e1 = dec(a as nat).len() as int;
    lemma_delimited_unique(cs, e1 + 1, b as nat, f as nat);
    let e2 = e1 + 1 + dec(b as nat).len();
    lemma_delimited_unique(cs, e2 + 1, c as nat, g as nat);
    let e3 = e2 + 1 + dec(c as nat).len();
    lemma_delimited_unique(cs, e3 + 1, d as nat, h as nat);
}

/// Parses a dotted-quad IPv4 address: four octets in decimal, each without a
/// leading zero, separated by dots, and nothing else.
pub fn parse_address(s: &str) -> (r: Option<Address>)
    ensures
        r matches Some(addr) ==> s@ == addr.text(),
        r is None ==> forall|a: u8, b: u8, c: u8, d: u8| #[trigger] dotted(a, b, c, d) != s@,
{
    let n = s.unicode_len();
    if n > 15 {
        proof {
            assert forall|a: u8, b: u8, c: u8, d: u8| #[trigger] dotted(a, b, c, d) != s@ by {
                if dotted(a, b, c, d) == s@ {
                    lemma_dotted_fields(s@, a, b, c, d);
                }
            }
        }
        return None;
    }
    let mut cs: Vec<char> = Vec::new();
    let mut i: usize = 0;
    while i < n
        invariant
            n == s@.len(),
            i <= n,
            cs@ == s@.subrange(0, i as int),
        decreases n - i,
    {
        cs.push(s.get_char(i));
        i = i + 1;
        assert(cs@ =~= s@.subrange(0, i as int));
    }
    assert(cs@ =~= s@);
    let ghost cv = cs@;
    let f1 = parse_field(&cs, 0);
    if f1.is_none() {
        proof {
            assert forall|a: u8, b: u8, c: u8, d: u8| #[trigger] dotted(a, b, c, d) != s@ by {
                if dotted(a, b, c, d) == s@ {
                    lemma_dotted_fields(cv, a, b, c, d);
                }
            }
        }
        return None;
    }
    let (o1, e1) = f1.unwrap();
    let f2 = if e1 < n && cs[e1] == '.' {
        parse_field(&cs, e1 + 1)
    } else {
        None
    };
    if f2.is_none() {
        proof {
            assert forall|a: u8, b: u8, c: u8, d: u8| #[trigger] dotted(a, b, c, d) != s@ by {
                if dotted(a, b, c, d) == s@ {
                    lemma_dotted_fields(cv, a, b, c, d);
                    lemma_delimited_unique(cv, 0, o1 as nat, a as nat);
                }
            }
        }
        return None;
    }
    let (o2, e2) = f2.unwrap();
    let f3 = if e2 < n && cs[e2] == '.' {
        parse_field(&cs, e2 + 1)
    } else {
        None
    };
    if f3.is_none() {
        proof {
            assert forall|a: u8, b: u8, c: u8, d: u8| #[trigger] dotted(a, b, c, d) != s@ by {
                if dotted(a, b, c, d) == s@ {
                    lemma_dotted_fields(cv, a, b, c, d);
                    lemma_delimited_unique(cv, 0, o1 as nat, a as nat);
                    lemma_delimited_unique(cv, e1 + 1, o2 as nat, b as nat);
                }
            }
        }
        return None;
    }
    let (o3, e3) = f3.unwrap();
    let f4 = if e3 < n && cs[e3] == '.' {
        parse_field(&cs, e3 + 1)
    } else {
        None
    };
    if f4.is_none() || f4.unwrap().1 != n {
        proof {
            assert forall|a: u8, b: u8, c: u8, d: u8| #[trigger] dotted(a, b, c, d) != s@ by {
                if dotted(a, b, c, d) == s@ {
                    lemma_dotted_fields(cv, a, b, c, d);
                    lemma_delimited_unique(cv, 0, o1 as nat, a as nat);
                    lemma_delimited_unique(cv, e1 + 1, o2 as nat, b as nat);
                    lemma_delimited_unique(cv, e2 + 1, o3 as nat, c as nat);
                    if f4 is Some {
                        lemma_delimited_unique(cv, e3 + 1, f4.unwrap().0 as nat, d as nat);
                    }
                }
            }
        }
        return None;
    }
    let (o4, _e4) = f4.unwrap();
    let addr = Address::new(o1, o2, o3, o4);
    proof {
        assert(cv.subrange(0, e1 as int) == dec(o1 as nat));
        assert(cv.subrange(e1 + 1, e2 as int) == dec(o2 as nat));
        assert(cv.subrange(e2 + 1, e3 as int) == dec(o3 as nat));
        assert(cv.subrange(e3 + 1, n as int) == dec(o4 as nat));
        assert(cv =~= cv.subrange(0, e1 as int) + seq!['.'] + cv.subrange(e1 + 1, e2 as int)
            + seq!['.'] + cv.subrange(e2 + 1, e3 as int) + seq!['.'] + cv.subrange(
            e3 + 1,
            n as int,
        ));
    }
    Some(addr)
}

} // verus!

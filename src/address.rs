use vstd::prelude::*;

verus! {

/// An IPv4 address, one octet per field, in the order they are written.
#[derive(Debug, Clone, Copy, PartialEq, Eq, Structural)]
pub struct Address {
    pub a: u8,
    pub b: u8,
    pub c: u8,
    pub d: u8,
}

pub open spec fn is_digit(c: char) -> bool {
    '0' <= c && c <= '9'
}

pub open spec fn digit_value(c: char) -> nat {
    (c as nat - '0' as nat) as nat
}

/// The number that a run of decimal digits denotes.
pub open spec fn decimal_value(t: Seq<char>) -> nat
    decreases t.len(),
{
    if t.len() == 0 {
        0
    } else {
        decimal_value(t.drop_last()) * 10 + digit_value(t.last())
    }
}

/// The pieces of `s` between the dots, in order; a string without dots is one piece.
pub open spec fn split_dots(s: Seq<char>) -> Seq<Seq<char>>
    decreases s.len(),
{
    if s.len() == 0 {
        seq![Seq::<char>::empty()]
    } else {
        let rest = split_dots(s.drop_last());
        if s.last() == '.' {
            rest.push(Seq::<char>::empty())
        } else {
            rest.update(rest.len() - 1, rest.last().push(s.last()))
        }
    }
}

pub open spec fn all_digits(t: Seq<char>) -> bool {
    forall|k: int| 0 <= k < t.len() ==> is_digit(#[trigger] t[k])
}

proof fn lemma_all_digits_push(t: Seq<char>, c: char)
    ensures
        all_digits(t.push(c)) == (all_digits(t) && is_digit(c)),
{
    assert(t.push(c)[t.len() as int] == c);
    if all_digits(t.push(c)) {
        assert forall|k: int| 0 <= k < t.len() implies is_digit(#[trigger] t[k]) by {
            assert(t.push(c)[k] == t[k]);
        }
    }
    if all_digits(t) && is_digit(c) {
        assert forall|k: int| 0 <= k < t.push(c).len() implies is_digit(#[trigger] t.push(c)[k]) by {
            if k < t.len() {
                assert(t.push(c)[k] == t[k]);
            }
        }
    }
}

/// One to three decimal digits, without a leading zero, at most 255.
pub open spec fn is_octet_text(t: Seq<char>) -> bool {
    &&& 1 <= t.len() <= 3
    &&& all_digits(t)
    &&& t.len() > 1 ==> t[0] != '0'
    &&& decimal_value(t) <= 255
}

/// The address that `s` writes in dotted-quad form, if it is one.
pub open spec fn parse_dotted_quad(s: Seq<char>) -> Option<Address> {
    let parts = split_dots(s);
    if parts.len() == 4 && forall|j: int| 0 <= j < 4 ==> is_octet_text(#[trigger] parts[j]) {
        Some(
            Address {
                a: decimal_value(parts[0]) as u8,
                b: decimal_value(parts[1]) as u8,
                c: decimal_value(parts[2]) as u8,
                d: decimal_value(parts[3]) as u8,
            },
        )
    } else {
        None
    }
}

pub(crate) proof fn lemma_value_of_prefix(t: Seq<char>, k: int)
    requires
        0 <= k <= t.len(),
    ensures
        decimal_value(t.take(k)) <= decimal_value(t),
    decreases t.len(),
{
    if k < t.len() {
        assert(t.drop_last().take(k) =~= t.take(k));
        lemma_value_of_prefix(t.drop_last(), k);
    } else {
        assert(t.take(k) =~= t);
    }
}

pub(crate) proof fn lemma_split_nonempty(s: Seq<char>)
    ensures
        split_dots(s).len() >= 1,
    decreases s.len(),
{
    if s.len() > 0 {
        lemma_split_nonempty(s.drop_last());
    }
}

/// Writes `parts` back with a dot between each two.
pub open spec fn join_dots(parts: Seq<Seq<char>>) -> Seq<char>
    decreases parts.len(),
{
    if parts.len() <= 1 {
        if parts.len() == 1 { parts[0] } else { Seq::<char>::empty() }
    } else {
        join_dots(parts.drop_last()) + seq!['.'] + parts.last()
    }
}

pub(crate) proof fn lemma_join_split(s: Seq<char>)
    ensures
        join_dots(split_dots(s)) == s,
    decreases s.len(),
{
    if s.len() > 0 {
        let q = s.drop_last();
        let c = s.last();
        let p = split_dots(q);
        lemma_join_split(q);
        lemma_split_nonempty(q);
        assert(q.push(c) =~= s);
        if c == '.' {
            let r = p.push(Seq::<char>::empty());
            assert(r.drop_last() =~= p);
            assert(join_dots(r) =~= s);
        } else {
            let r = p.update(p.len() - 1, p.last().push(c));
            if p.len() == 1 {
                assert(join_dots(r) =~= s);
            } else {
                assert(r.drop_last() =~= p.drop_last());
                assert(join_dots(r) == join_dots(p.drop_last()) + seq!['.'] + p.last().push(c));
                assert(join_dots(r) =~= s);
            }
        }
    } else {
        assert(split_dots(s) =~= seq![Seq::<char>::empty()]);
        assert(s =~= Seq::<char>::empty());
    }
}

/// Reads `s` as a dotted-quad IPv4 address: four octets of one to three
/// decimal digits, separated by dots, each at most 255 and without a leading zero.
pub fn parse_address(s: &str) -> (r: Option<Address>)
    ensures
        r == parse_dotted_quad(s@),
{
    let n = s.unicode_len();
    let mut i: usize = 0;
    let mut vals: Vec<u8> = Vec::new();
    let mut parts_done: usize = 0;
    let mut ok: bool = true;
    let mut cur_len: usize = 0;
    let mut cur_digits: bool = true;
    let mut cur_val: u32 = 0;
    let mut cur_lead_zero: bool = false;
    while i < n
        invariant
            n == s@.len(),
            i <= n,
            parts_done <= i,
            cur_len <= i,
            cur_val <= 999,
            cur_len <= 2 ==> cur_val <= 99,
            cur_len <= 1 ==> cur_val <= 9,
            cur_len == 0 ==> cur_val == 0,
            split_dots(s@.take(i as int)).len() == parts_done + 1,
            ok <==> (parts_done <= 3 && forall|j: int|
                0 <= j < parts_done ==> is_octet_text(#[trigger] split_dots(s@.take(i as int))[j])),
            ok ==> vals@.len() == parts_done,
            ok ==> forall|j: int|
                0 <= j < parts_done ==> vals@[j] as nat == decimal_value(
                    #[trigger] split_dots(s@.take(i as int))[j],
                ),
            cur_len == split_dots(s@.take(i as int))[parts_done as int].len(),
            cur_digits == all_digits(split_dots(s@.take(i as int))[parts_done as int]),
            cur_digits && cur_len <= 3 ==> cur_val as nat == decimal_value(
                split_dots(s@.take(i as int))[parts_done as int],
            ),
            cur_len > 0 ==> (cur_lead_zero <==> split_dots(s@.take(i as int))[parts_done as int][0]
                == '0'),
        decreases n - i,
    {
        let ch = s.get_char(i);
        let ghost prev = split_dots(s@.take(i as int));
        proof {
            assert(s@.take(i + 1).drop_last() =~= s@.take(i as int));
            assert(s@.take(i + 1).last() == ch);
        }
        if ch == '.' {
            let cur_ok = cur_digits && 1 <= cur_len && cur_len <= 3 && (cur_len == 1
                || !cur_lead_zero) && cur_val <= 255;
            proof {
                let parts = split_dots(s@.take(i + 1));
                assert(parts =~= prev.push(Seq::<char>::empty()));
                assert(all_digits(Seq::<char>::empty()));
                assert(forall|j: int| 0 <= j <= parts_done ==> parts[j] == prev[j]);
                assert(cur_ok <==> is_octet_text(prev[parts_done as int]));
            }
            if ok && cur_ok && parts_done < 3 {
                vals.push(cur_val as u8);
            } else {
                ok = false;
            }
            parts_done = parts_done + 1;
            cur_len = 0;
            cur_digits = true;
            cur_val = 0;
            cur_lead_zero = false;
        } else {
            let ghost last = prev[parts_done as int];
            proof {
                let parts = split_dots(s@.take(i + 1));
                assert(parts =~= prev.update(parts_done as int, last.push(ch)));
                assert(last.push(ch).drop_last() =~= last);
                assert(forall|j: int| 0 <= j < parts_done ==> parts[j] == prev[j]);
                lemma_all_digits_push(last, ch);
                assert(parts[parts_done as int] == last.push(ch));
            }
            if cur_len == 0 {
                cur_lead_zero = ch == '0';
            }
            let d = ch >= '0' && ch <= '9';
            if cur_digits && d && cur_len < 3 {
                cur_val = cur_val * 10 + (ch as u32 - '0' as u32);
            }
            cur_digits = cur_digits && d;
            cur_len = cur_len + 1;
        }
        i = i + 1;
    }
    proof {
        assert(s@.take(n as int) =~= s@);
    }
    let cur_ok = cur_digits && 1 <= cur_len && cur_len <= 3 && (cur_len == 1 || !cur_lead_zero)
        && cur_val <= 255;
    if ok && cur_ok && parts_done == 3 {
        Some(Address { a: vals[0], b: vals[1], c: vals[2], d: cur_val as u8 })
    } else {
        None
    }
}

} // verus!

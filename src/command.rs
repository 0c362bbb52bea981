use vstd::prelude::*;
use crate::address::{
    all_digits, decimal_value, digit_value, is_digit, is_octet_text, join_dots,
    lemma_join_split, lemma_value_of_prefix, parse_dotted_quad, split_dots, Address,
};

verus! {

/// The character of a decimal digit.
pub open spec fn digit_char(d: nat) -> char {
    if d == 0 { '0' }
    else if d == 1 { '1' }
    else if d == 2 { '2' }
    else if d == 3 { '3' }
    else if d == 4 { '4' }
    else if d == 5 { '5' }
    else if d == 6 { '6' }
    else if d == 7 { '7' }
    else if d == 8 { '8' }
    else { '9' }
}

/// `n` written in decimal, without leading zeros.
pub open spec fn decimal_text(n: nat) -> Seq<char>
    decreases n,
{
    if n < 10 {
        seq![digit_char(n)]
    } else {
        decimal_text(n / 10).push(digit_char(n % 10))
    }
}

/// The dotted-quad text of an address.
pub open spec fn dotted_text(a: Address) -> Seq<char> {
    decimal_text(a.a as nat) + seq!['.'] + decimal_text(a.b as nat) + seq!['.']
        + decimal_text(a.c as nat) + seq!['.'] + decimal_text(a.d as nat)
}

proof fn lemma_no_dot_split(t: Seq<char>)
    requires
        !t.contains('.'),
    ensures
        split_dots(t) == seq![t],
    decreases t.len(),
{
    if t.len() > 0 {
        let p = t.drop_last();
        assert(!p.contains('.')) by {
            if p.contains('.') {
                let k = choose|k: int| 0 <= k < p.len() && p[k] == '.';
                assert(t[k] == '.');
            }
        }
        lemma_no_dot_split(p);
        assert(t.last() != '.') by {
            assert(t[t.len() - 1] == t.last());
        }
        assert(p.push(t.last()) =~= t);
        assert(seq![p].update(0, p.push(t.last())) =~= seq![t]);
    } else {
        assert(t =~= Seq::<char>::empty());
    }
}

proof fn lemma_split_after_dot(x: Seq<char>, y: Seq<char>)
    requires
        !y.contains('.'),
    ensures
        split_dots(x + seq!['.'] + y) == split_dots(x).push(y),
    decreases y.len(),
{
    let w = x + seq!['.'] + y;
    if y.len() == 0 {
        assert(w.drop_last() =~= x);
        assert(w.last() == '.');
        assert(y =~= Seq::<char>::empty());
    } else {
        let p = y.drop_last();
        assert(!p.contains('.')) by {
            if p.contains('.') {
                let k = choose|k: int| 0 <= k < p.len() && p[k] == '.';
                assert(y[k] == '.');
            }
        }
        lemma_split_after_dot(x, p);
        assert(w.drop_last() =~= x + seq!['.'] + p);
        assert(w.last() == y.last());
        assert(y.last() != '.') by {
            assert(y[y.len() - 1] == y.last());
        }
        assert(p.push(y.last()) =~= y);
        let r = split_dots(x).push(p);
        assert(r.update(r.len() - 1, r.last().push(y.last())) =~= split_dots(x).push(y));
    }
}

proof fn lemma_digit_char(d: nat)
    requires
        d < 10,
    ensures
        is_digit(digit_char(d)),
        digit_char(d) != '.',
        digit_value(digit_char(d)) == d,
        d > 0 ==> digit_char(d) != '0',
{
}

proof fn lemma_decimal_text_octet(n: nat)
    ensures
        decimal_text(n).len() >= 1,
        n < 10 ==> decimal_text(n).len() == 1,
        n < 100 ==> decimal_text(n).len() <= 2,
        n < 1000 ==> decimal_text(n).len() <= 3,
        n >= 1 ==> decimal_text(n)[0] != '0',
        n < 10 ==> decimal_text(n)[0] == digit_char(n),
        all_digits(decimal_text(n)),
        !decimal_text(n).contains('.'),
        decimal_value(decimal_text(n)) == n,
    decreases n,
{
    let t = decimal_text(n);
    if n < 10 {
        lemma_digit_char(n);
        assert(t.drop_last() =~= Seq::<char>::empty());
        assert(t.last() == digit_char(n));
        assert(decimal_value(t.drop_last()) == 0);
        assert(decimal_value(t) == decimal_value(t.drop_last()) * 10 + n);
        assert(!t.contains('.')) by {
            if t.contains('.') {
                let k = choose|k: int| 0 <= k < t.len() && t[k] == '.';
                assert(k == 0);
            }
        }
    } else {
        let p = decimal_text(n / 10);
        let c = digit_char(n % 10);
        lemma_decimal_text_octet(n / 10);
        lemma_digit_char(n % 10);
        assert(t == p.push(c));
        assert(t.drop_last() =~= p);
        assert(t[0] == p[0]);
        assert forall|k: int| 0 <= k < t.len() implies is_digit(#[trigger] t[k]) by {
            if k < p.len() {
                assert(t[k] == p[k]);
            }
        }
        assert(!t.contains('.')) by {
            if t.contains('.') {
                let k = choose|k: int| 0 <= k < t.len() && t[k] == '.';
                if k < p.len() {
                    assert(p[k] == '.');
                }
            }
        }
        assert(decimal_value(t) == decimal_value(p) * 10 + n % 10);
        assert((n / 10) * 10 + n % 10 == n);
    }
}

/// The dotted-quad text of an address is well formed and reads back as that
/// same address.
pub proof fn lemma_dotted_text_parses_back(a: Address)
    ensures
        parse_dotted_quad(dotted_text(a)) == Some(a),
{
    let ta = decimal_text(a.a as nat);
    let tb = decimal_text(a.b as nat);
    let tc = decimal_text(a.c as nat);
    let td = decimal_text(a.d as nat);
    lemma_decimal_text_octet(a.a as nat);
    lemma_decimal_text_octet(a.b as nat);
    lemma_decimal_text_octet(a.c as nat);
    lemma_decimal_text_octet(a.d as nat);
    lemma_no_dot_split(ta);
    lemma_split_after_dot(ta, tb);
    lemma_split_after_dot(ta + seq!['.'] + tb, tc);
    lemma_split_after_dot(ta + seq!['.'] + tb + seq!['.'] + tc, td);
    let parts = split_dots(dotted_text(a));
    assert(parts =~= seq![ta, tb, tc, td]);
    assert(is_octet_text(ta) && is_octet_text(tb) && is_octet_text(tc) && is_octet_text(td));
    assert(forall|j: int| 0 <= j < 4 ==> is_octet_text(#[trigger] parts[j]));
}

proof fn lemma_digit_text(t: Seq<char>)
    requires
        all_digits(t),
        t.len() >= 1,
        t.len() > 1 ==> t[0] != '0',
    ensures
        decimal_text(decimal_value(t)) == t,
        t[0] != '0' ==> decimal_value(t) >= 1,
    decreases t.len(),
{
    let p = t.drop_last();
    let c = t.last();
    assert(is_digit(t[t.len() - 1]));
    assert(digit_value(c) < 10);
    lemma_digit_char(digit_value(c));
    assert(digit_char(digit_value(c)) == c);
    if t.len() == 1 {
        assert(p =~= Seq::<char>::empty());
        assert(decimal_value(p) == 0);
        assert(seq![c] =~= t);
    } else {
        assert forall|k: int| 0 <= k < p.len() implies is_digit(#[trigger] p[k]) by {
            assert(p[k] == t[k]);
        }
        assert(p[0] == t[0]);
        lemma_digit_text(p);
        let v = decimal_value(t);
        assert(v == decimal_value(p) * 10 + digit_value(c));
        assert(v / 10 == decimal_value(p));
        assert(v % 10 == digit_value(c));
        assert(p.push(c) =~= t);
        lemma_value_of_prefix(t, t.len() - 1);
        assert(t.take(t.len() - 1) =~= p);
    }
}

/// Dotted-quad text is canonical: a string that reads as an address is the
/// dotted-quad text of that address, character for character.
pub proof fn lemma_parsed_text_is_canonical(s: Seq<char>)
    requires
        parse_dotted_quad(s) is Some,
    ensures
        s == dotted_text(parse_dotted_quad(s)->0),
{
    let parts = split_dots(s);
    let a = parse_dotted_quad(s)->0;
    assert(is_octet_text(parts[0]) && is_octet_text(parts[1]) && is_octet_text(parts[2])
        && is_octet_text(parts[3]));
    lemma_digit_text(parts[0]);
    lemma_digit_text(parts[1]);
    lemma_digit_text(parts[2]);
    lemma_digit_text(parts[3]);
    lemma_join_split(s);
    let upto_three = parts.drop_last();
    let upto_two = upto_three.drop_last();
    let upto_one = upto_two.drop_last();
    assert(upto_one =~= seq![parts[0]]);
    assert(join_dots(upto_one) == parts[0]);
    assert(upto_two.last() == parts[1]);
    assert(join_dots(upto_two) == parts[0] + seq!['.'] + parts[1]);
    assert(upto_three.last() == parts[2]);
    assert(join_dots(upto_three) == parts[0] + seq!['.'] + parts[1] + seq!['.'] + parts[2]);
    assert(join_dots(parts) == parts[0] + seq!['.'] + parts[1] + seq!['.'] + parts[2]
        + seq!['.'] + parts[3]);
}

fn digit_str(d: u32) -> (r: &'static str)
    requires
        d < 10,
    ensures
        r@ == seq![digit_char(d as nat)],
{
    if d == 0 {
        proof { reveal_strlit("0"); }
        "0"
    } else if d == 1 {
        proof { reveal_strlit("1"); }
        "1"
    } else if d == 2 {
        proof { reveal_strlit("2"); }
        "2"
    } else if d == 3 {
        proof { reveal_strlit("3"); }
        "3"
    } else if d == 4 {
        proof { reveal_strlit("4"); }
        "4"
    } else if d == 5 {
        proof { reveal_strlit("5"); }
        "5"
    } else if d == 6 {
        proof { reveal_strlit("6"); }
        "6"
    } else if d == 7 {
        proof { reveal_strlit("7"); }
        "7"
    } else if d == 8 {
        proof { reveal_strlit("8"); }
        "8"
    } else {
        proof { reveal_strlit("9"); }
        "9"
    }
}

/// Writes `n` in decimal.
pub fn decimal_string(n: u32) -> (r: String)
    ensures
        r@ == decimal_text(n as nat),
    decreases n,
{
    if n < 10 {
        let mut s = String::new();
        s.append(digit_str(n));
        s
    } else {
        let mut s = decimal_string(n / 10);
        s.append(digit_str(n % 10));
        s
    }
}

/// Writes an address in dotted-quad form.
pub fn dotted_string(a: &Address) -> (r: String)
    ensures
        r@ == dotted_text(*a),
{
    let mut s = decimal_string(a.a as u32);
    s.append(".");
    s.append(decimal_string(a.b as u32).as_str());
    s.append(".");
    s.append(decimal_string(a.c as u32).as_str());
    s.append(".");
    s.append(decimal_string(a.d as u32).as_str());
    proof {
        reveal_strlit(".");
    }
    s
}

/// Fixed settings of one installation: the host the viewer connects to and
/// the start-up script handed to a new VNC server.
pub struct LauncherConfig {
    pub viewer_host: Address,
    pub xstartup_path: String,
}

impl Default for LauncherConfig {
    /// The home server at 192.168.0.222, with its start-up script.
    fn default() -> (r: LauncherConfig)
        ensures
            r.viewer_host == (Address { a: 192, b: 168, c: 0, d: 222 }),
            r.xstartup_path@ == "/home/dsock/.vnc/init.arg"@,
    {
        LauncherConfig {
            viewer_host: Address { a: 192, b: 168, c: 0, d: 222 },
            xstartup_path: String::from_str("/home/dsock/.vnc/init.arg"),
        }
    }
}

/// The remote command that starts a VNC server running `program`.
pub fn start_command(config: &LauncherConfig, program: &str) -> (r: String)
    ensures
        r@ == "vncserver -xstartup "@ + config.xstartup_path@ + " -name "@ + program@,
{
    let mut s = String::from_str("vncserver -xstartup ");
    s.append(config.xstartup_path.as_str());
    s.append(" -name ");
    s.append(program);
    s
}

/// The remote command that stops the VNC server of desktop `desktop`.
pub fn kill_command(desktop: &str) -> (r: String)
    ensures
        r@ == "vncserver -kill :"@ + desktop@,
{
    let mut s = String::from_str("vncserver -kill :");
    s.append(desktop);
    s
}

/// The remote command that lists the running desktops.
pub fn list_command() -> (r: String)
    ensures
        r@ == "vncserver -list"@,
{
    String::from_str("vncserver -list")
}

/// The viewer's endpoint for desktop `desktop` on `host`: `<address>:<desktop>`.
pub fn endpoint(host: &Address, desktop: &str) -> (r: String)
    ensures
        r@ == dotted_text(*host) + ":"@ + desktop@,
{
    let mut s = dotted_string(host);
    s.append(":");
    s.append(desktop);
    s
}

/// The viewer's endpoint for the numbered session `id` on `host`.
pub fn session_endpoint(host: &Address, id: u32) -> (r: String)
    ensures
        r@ == dotted_text(*host) + ":"@ + decimal_text(id as nat),
{
    let n = decimal_string(id);
    endpoint(host, n.as_str())
}

} // verus!

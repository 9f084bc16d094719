use vstd::prelude::*;
use crate::task::{Priority, Task, TaskView, views_of};
use crate::chars::{string_to_chars, string_from_chars};

verus! {

// ---------------------------------------------------------------------------
// The stored form of a collection: one line of structured text, an array of
// records with the five task keys. The encoder below writes it; the parser
// accepts exactly what the encoder writes, and an unparsable text loads as
// the empty collection.
// ---------------------------------------------------------------------------

pub open spec fn is_digit(c: char) -> bool {
    c == '0' || c == '1' || c == '2' || c == '3' || c == '4' || c == '5' || c == '6' || c == '7'
        || c == '8' || c == '9'
}

pub open spec fn digit_char(d: nat) -> char {
    if d == 0 {
        '0'
    } else if d == 1 {
        '1'
    } else if d == 2 {
        '2'
    } else if d == 3 {
        '3'
    } else if d == 4 {
        '4'
    } else if d == 5 {
        '5'
    } else if d == 6 {
        '6'
    } else if d == 7 {
        '7'
    } else if d == 8 {
        '8'
    } else {
        '9'
    }
}

pub open spec fn digit_val(c: char) -> nat {
    if c == '0' {
        0
    } else if c == '1' {
        1
    } else if c == '2' {
        2
    } else if c == '3' {
        3
    } else if c == '4' {
        4
    } else if c == '5' {
        5
    } else if c == '6' {
        6
    } else if c == '7' {
        7
    } else if c == '8' {
        8
    } else {
        9
    }
}

/// The decimal digits of a number, most significant first.
pub open spec fn dec_digits(n: nat) -> Seq<char>
    decreases n,
{
    if n < 10 {
        seq![digit_char(n)]
    } else {
        dec_digits(n / 10).push(digit_char(n % 10))
    }
}

/// A character as stored inside a quoted string: quote and backslash get a
/// backslash before them, every other character stands as itself.
pub open spec fn esc_char(c: char) -> Seq<char> {
    if c == '"' || c == '\\' {
        seq!['\\', c]
    } else {
        seq![c]
    }
}

pub open spec fn esc(s: Seq<char>) -> Seq<char>
    decreases s.len(),
{
    if s.len() == 0 {
        Seq::empty()
    } else {
        esc_char(s[0]) + esc(s.skip(1))
    }
}

pub open spec fn lit_id_key() -> Seq<char> {
    "{\"id\":"@
}

pub open spec fn lit_desc_key() -> Seq<char> {
    ",\"description\":"@
}

pub open spec fn lit_done_key() -> Seq<char> {
    ",\"done\":"@
}

pub open spec fn lit_prio_key() -> Seq<char> {
    ",\"priority\":"@
}

pub open spec fn lit_due_key() -> Seq<char> {
    ",\"due_date\":"@
}

pub open spec fn lit_true() -> Seq<char> {
    "true"@
}

pub open spec fn lit_false() -> Seq<char> {
    "false"@
}

pub open spec fn lit_close() -> Seq<char> {
    "}"@
}

/// The quoted tag of a priority.
pub open spec fn qtag(p: Priority) -> Seq<char> {
    match p {
        Priority::Low => "\"Low\""@,
        Priority::Medium => "\"Medium\""@,
        Priority::High => "\"High\""@,
    }
}

/// A string field as stored: quoted, with its content escaped.
pub open spec fn qstr(s: Seq<char>) -> Seq<char> {
    seq!['"'] + esc(s) + seq!['"']
}

/// One task as stored.
pub open spec fn spec_encode_task(t: TaskView) -> Seq<char> {
    lit_id_key() + dec_digits(t.id as nat) + lit_desc_key() + qstr(t.description) + lit_done_key()
        + (if t.done {
        lit_true()
    } else {
        lit_false()
    }) + lit_prio_key() + qtag(t.priority) + lit_due_key() + qstr(t.due_date) + lit_close()
}

/// The stored tasks, separated by commas.
pub open spec fn spec_encode_items(ts: Seq<TaskView>) -> Seq<char>
    decreases ts.len(),
{
    if ts.len() == 0 {
        Seq::empty()
    } else if ts.len() == 1 {
        spec_encode_task(ts[0])
    } else {
        spec_encode_task(ts[0]) + seq![','] + spec_encode_items(ts.skip(1))
    }
}

/// The whole collection as stored: the records between brackets.
pub open spec fn spec_encode_tasks(ts: Seq<TaskView>) -> Seq<char> {
    seq!['['] + spec_encode_items(ts) + seq![']']
}

// ---------------------------------------------------------------------------
// The parser, as a mathematical function. Each piece consumes a prefix and
// returns the parsed value with the remaining text, or nothing.
// ---------------------------------------------------------------------------

/// Consume an expected literal.
pub open spec fn sp_lit(s: Seq<char>, l: Seq<char>) -> Option<Seq<char>> {
    if l.len() <= s.len() && s.subrange(0, l.len() as int) == l {
        Option::Some(s.skip(l.len() as int))
    } else {
        Option::None
    }
}

/// Consume digits, folding them onto an accumulator, most significant first.
pub open spec fn sp_digits(s: Seq<char>, acc: nat) -> (nat, Seq<char>)
    decreases s.len(),
{
    if s.len() > 0 && is_digit(s[0]) {
        sp_digits(s.skip(1), acc * 10 + digit_val(s[0]))
    } else {
        (acc, s)
    }
}

/// Consume a number. It must begin with a digit and fit the id field.
pub open spec fn sp_nat(s: Seq<char>) -> Option<(nat, Seq<char>)> {
    if s.len() > 0 && is_digit(s[0]) {
        let vr = sp_digits(s, 0);
        if vr.0 <= usize::MAX as nat {
            Option::Some(vr)
        } else {
            Option::None
        }
    } else {
        Option::None
    }
}

/// Consume string content after its opening quote, up to and including the
/// closing quote, undoing the escapes.
pub open spec fn sp_string(s: Seq<char>) -> Option<(Seq<char>, Seq<char>)>
    decreases s.len(),
{
    if s.len() == 0 {
        Option::None
    } else if s[0] == '"' {
        Option::Some((Seq::empty(), s.skip(1)))
    } else if s[0] == '\\' {
        if s.len() >= 2 {
            match sp_string(s.skip(2)) {
                Option::Some(p) => Option::Some((seq![s[1]] + p.0, p.1)),
                Option::None => Option::None,
            }
        } else {
            Option::None
        }
    } else {
        match sp_string(s.skip(1)) {
            Option::Some(p) => Option::Some((seq![s[0]] + p.0, p.1)),
            Option::None => Option::None,
        }
    }
}

/// Consume a quoted string.
pub open spec fn sp_qstring(s: Seq<char>) -> Option<(Seq<char>, Seq<char>)> {
    if s.len() > 0 && s[0] == '"' {
        sp_string(s.skip(1))
    } else {
        Option::None
    }
}

pub open spec fn sp_bool(s: Seq<char>) -> Option<(bool, Seq<char>)> {
    match sp_lit(s, lit_true()) {
        Option::Some(r) => Option::Some((true, r)),
        Option::None => match sp_lit(s, lit_false()) {
            Option::Some(r) => Option::Some((false, r)),
            Option::None => Option::None,
        },
    }
}

pub open spec fn sp_priority(s: Seq<char>) -> Option<(Priority, Seq<char>)> {
    match sp_lit(s, qtag(Priority::Low)) {
        Option::Some(r) => Option::Some((Priority::Low, r)),
        Option::None => match sp_lit(s, qtag(Priority::Medium)) {
            Option::Some(r) => Option::Some((Priority::Medium, r)),
            Option::None => match sp_lit(s, qtag(Priority::High)) {
                Option::Some(r) => Option::Some((Priority::High, r)),
                Option::None => Option::None,
            },
        },
    }
}

/// Consume one stored task.
pub open spec fn sp_task(s: Seq<char>) -> Option<(TaskView, Seq<char>)> {
    match sp_lit(s, lit_id_key()) {
        Option::None => Option::None,
        Option::Some(r1) => match sp_nat(r1) {
            Option::None => Option::None,
            Option::Some((id, r2)) => match sp_lit(r2, lit_desc_key()) {
                Option::None => Option::None,
                Option::Some(r3) => match sp_qstring(r3) {
                    Option::None => Option::None,
                    Option::Some((desc, r4)) => match sp_lit(r4, lit_done_key()) {
                        Option::None => Option::None,
                        Option::Some(r5) => match sp_bool(r5) {
                            Option::None => Option::None,
                            Option::Some((dn, r6)) => match sp_lit(r6, lit_prio_key()) {
                                Option::None => Option::None,
                                Option::Some(r7) => match sp_priority(r7) {
                                    Option::None => Option::None,
                                    Option::Some((p, r8)) => match sp_lit(r8, lit_due_key()) {
                                        Option::None => Option::None,
                                        Option::Some(r9) => match sp_qstring(r9) {
                                            Option::None => Option::None,
                                            Option::Some((due, r10)) => match sp_lit(
                                                r10,
                                                lit_close(),
                                            ) {
                                                Option::None => Option::None,
                                                Option::Some(r11) => Option::Some(
                                                    (
                                                        TaskView {
                                                            id: id as usize,
                                                            description: desc,
                                                            done: dn,
                                                            priority: p,
                                                            due_date: due,
                                                        },
                                                        r11,
                                                    ),
                                                ),
                                            },
                                        },
                                    },
                                },
                            },
                        },
                    },
                },
            },
        },
    }
}

/// Consume stored tasks separated by commas, up to and including the closing
/// bracket. The fuel bounds the recursion; any amount at least the number of
/// stored tasks gives the same answer.
pub open spec fn sp_items(s: Seq<char>, fuel: nat) -> Option<(Seq<TaskView>, Seq<char>)>
    decreases fuel,
{
    if fuel == 0 {
        Option::None
    } else {
        match sp_task(s) {
            Option::None => Option::None,
            Option::Some((t, r)) => if r.len() > 0 && r[0] == ',' {
                match sp_items(r.skip(1), (fuel - 1) as nat) {
                    Option::Some((ts, r2)) => Option::Some((seq![t] + ts, r2)),
                    Option::None => Option::None,
                }
            } else if r.len() > 0 && r[0] == ']' {
                Option::Some((seq![t], r.skip(1)))
            } else {
                Option::None
            },
        }
    }
}

/// What a whole stored text denotes, if anything: the bracketed records with
/// nothing left over.
pub open spec fn sp_tasks(s: Seq<char>) -> Option<Seq<TaskView>> {
    if s.len() >= 1 && s[0] == '[' {
        let s1 = s.skip(1);
        if s1.len() >= 1 && s1[0] == ']' {
            if s1.len() == 1 {
                Option::Some(Seq::empty())
            } else {
                Option::None
            }
        } else {
            match sp_items(s1, s1.len()) {
                Option::Some((ts, r)) => if r.len() == 0 {
                    Option::Some(ts)
                } else {
                    Option::None
                },
                Option::None => Option::None,
            }
        }
    } else {
        Option::None
    }
}

// ---------------------------------------------------------------------------
// Round trip: the parser undoes the encoder, on every collection.
// ---------------------------------------------------------------------------

proof fn lemma_sp_lit_prefix(l: Seq<char>, rest: Seq<char>)
    ensures
        sp_lit(l + rest, l) == Option::Some(rest),
{
    let s = l + rest;
    assert(s.subrange(0, l.len() as int) =~= l);
    assert(s.skip(l.len() as int) =~= rest);
}

proof fn lemma_sp_lit_mismatch(s: Seq<char>, l: Seq<char>, k: int)
    requires
        0 <= k < l.len(),
        k < s.len(),
        s[k] != l[k],
    ensures
        sp_lit(s, l) == Option::<Seq<char>>::None,
{
    if l.len() <= s.len() {
        assert(s.subrange(0, l.len() as int)[k] == s[k]);
    }
}

proof fn lemma_sp_digits_ge(s: Seq<char>, acc: nat)
    ensures
        sp_digits(s, acc).0 >= acc,
    decreases s.len(),
{
    if s.len() > 0 && is_digit(s[0]) {
        assert(acc * 10 + digit_val(s[0]) >= acc) by (nonlinear_arith);
        lemma_sp_digits_ge(s.skip(1), acc * 10 + digit_val(s[0]));
    }
}

spec fn pow10_len(n: nat) -> nat
    decreases n,
{
    if n < 10 {
        10
    } else {
        pow10_len(n / 10) * 10
    }
}

proof fn lemma_sp_digits_dec(n: nat, rest: Seq<char>, acc: nat)
    ensures
        sp_digits(dec_digits(n) + rest, acc) == sp_digits(rest, (acc * pow10_len(n) + n) as nat),
    decreases n,
{
    if n < 10 {
        let s = dec_digits(n) + rest;
        assert(s[0] == digit_char(n));
        assert(is_digit(digit_char(n)) && digit_val(digit_char(n)) == n);
        assert(s.skip(1) =~= rest);
        assert(acc * pow10_len(n) + n == acc * 10 + n) by (nonlinear_arith)
            requires pow10_len(n) == 10,
        ;
    } else {
        let hi = n / 10;
        let lo = n % 10;
        let rest2 = seq![digit_char(lo)] + rest;
        assert(dec_digits(n) + rest =~= dec_digits(hi) + rest2);
        lemma_sp_digits_dec(hi, rest2, acc);
        let x = (acc * pow10_len(hi) + hi) as nat;
        assert(rest2[0] == digit_char(lo));
        assert(is_digit(digit_char(lo)) && digit_val(digit_char(lo)) == lo);
        assert(rest2.skip(1) =~= rest);
        assert(sp_digits(rest2, x) == sp_digits(rest, x * 10 + lo));
        vstd::arithmetic::div_mod::lemma_fundamental_div_mod(n as int, 10);
        assert(x * 10 + lo == acc * (pow10_len(hi) * 10) + (hi * 10 + lo)) by (nonlinear_arith)
            requires x == acc * pow10_len(hi) + hi,
        ;
        assert(pow10_len(n) == pow10_len(hi) * 10);
        assert(hi * 10 + lo == n);
    }
}

proof fn lemma_dec_digits_first(n: nat)
    ensures
        dec_digits(n).len() >= 1,
        is_digit(dec_digits(n)[0]),
    decreases n,
{
    if n >= 10 {
        lemma_dec_digits_first(n / 10);
        assert(dec_digits(n)[0] == dec_digits(n / 10)[0]);
    }
}

proof fn lemma_sp_nat_dec(n: usize, rest: Seq<char>)
    requires
        rest.len() == 0 || !is_digit(rest[0]),
    ensures
        sp_nat(dec_digits(n as nat) + rest) == Option::Some((n as nat, rest)),
{
    let s = dec_digits(n as nat) + rest;
    lemma_dec_digits_first(n as nat);
    assert(s[0] == dec_digits(n as nat)[0]);
    lemma_sp_digits_dec(n as nat, rest, 0);
    assert(0 * pow10_len(n as nat) + n as nat == n as nat) by (nonlinear_arith);
    assert(sp_digits(rest, n as nat) == (n as nat, rest));
}

proof fn lemma_sp_string_esc(t: Seq<char>, rest: Seq<char>)
    ensures
        sp_string(esc(t) + (seq!['"'] + rest)) == Option::Some((t, rest)),
    decreases t.len(),
{
    if t.len() == 0 {
        let s = esc(t) + (seq!['"'] + rest);
        assert(s =~= seq!['"'] + rest);
        assert(s[0] == '"');
        assert(s.skip(1) =~= rest);
    } else {
        let c = t[0];
        lemma_sp_string_esc(t.skip(1), rest);
        let tail = esc(t.skip(1)) + (seq!['"'] + rest);
        let s = esc(t) + (seq!['"'] + rest);
        if c == '"' || c == '\\' {
            assert(esc(t) =~= seq!['\\', c] + esc(t.skip(1)));
            assert(s =~= seq!['\\', c] + tail);
            assert(s[0] == '\\' && s.len() >= 2 && s[1] == c);
            assert(s.skip(2) =~= tail);
            assert(seq![c] + t.skip(1) =~= t);
        } else {
            assert(esc(t) =~= seq![c] + esc(t.skip(1)));
            assert(s =~= seq![c] + tail);
            assert(s[0] == c && c != '"' && c != '\\');
            assert(s.skip(1) =~= tail);
            assert(seq![c] + t.skip(1) =~= t);
        }
    }
}

proof fn lemma_sp_qstring_enc(t: Seq<char>, rest: Seq<char>)
    ensures
        sp_qstring(qstr(t) + rest) == Option::Some((t, rest)),
{
    let s = qstr(t) + rest;
    assert(s[0] == '"');
    assert(s.skip(1) =~= esc(t) + (seq!['"'] + rest));
    lemma_sp_string_esc(t, rest);
}

proof fn lemma_sp_bool_enc(b: bool, rest: Seq<char>)
    ensures
        b ==> sp_bool(lit_true() + rest) == Option::Some((true, rest)),
        !b ==> sp_bool(lit_false() + rest) == Option::Some((false, rest)),
{
    reveal_strlit("true");
    reveal_strlit("false");
    if b {
        lemma_sp_lit_prefix(lit_true(), rest);
    } else {
        let s = lit_false() + rest;
        assert(s[0] == 'f');
        lemma_sp_lit_mismatch(s, lit_true(), 0);
        lemma_sp_lit_prefix(lit_false(), rest);
    }
}

proof fn lemma_sp_priority_enc(p: Priority, rest: Seq<char>)
    ensures
        sp_priority(qtag(p) + rest) == Option::Some((p, rest)),
{
    reveal_strlit("\"Low\"");
    reveal_strlit("\"Medium\"");
    reveal_strlit("\"High\"");
    let s = qtag(p) + rest;
    lemma_sp_lit_prefix(qtag(p), rest);
    match p {
        Priority::Low => {
        }
        Priority::Medium => {
            assert(s[1] == 'M');
            lemma_sp_lit_mismatch(s, qtag(Priority::Low), 1);
        }
        Priority::High => {
            assert(s[1] == 'H');
            lemma_sp_lit_mismatch(s, qtag(Priority::Low), 1);
            lemma_sp_lit_mismatch(s, qtag(Priority::Medium), 1);
        }
    }
}

#[verifier::rlimit(100)]
proof fn lemma_sp_task_enc(t: TaskView, rest: Seq<char>)
    ensures
        sp_task(spec_encode_task(t) + rest) == Option::Some((t, rest)),
{
    let a1 = lit_id_key();
    let a2 = dec_digits(t.id as nat);
    let a3 = lit_desc_key();
    let a4 = qstr(t.description);
    let a5 = lit_done_key();
    let a6 = if t.done {
        lit_true()
    } else {
        lit_false()
    };
    let a7 = lit_prio_key();
    let a8 = qtag(t.priority);
    let a9 = lit_due_key();
    let a10 = qstr(t.due_date);
    let a11 = lit_close();
    let s11 = a11 + rest;
    let s10 = a10 + s11;
    let s9 = a9 + s10;
    let s8 = a8 + s9;
    let s7 = a7 + s8;
    let s6 = a6 + s7;
    let s5 = a5 + s6;
    let s4 = a4 + s5;
    let s3 = a3 + s4;
    let s2 = a2 + s3;
    let s1 = a1 + s2;
    assert(spec_encode_task(t) + rest =~= s1);
    lemma_sp_lit_prefix(a1, s2);
    reveal_strlit(",\"description\":");
    assert(s3[0] == ',' && !is_digit(','));
    lemma_sp_nat_dec(t.id, s3);
    lemma_sp_lit_prefix(a3, s4);
    lemma_sp_qstring_enc(t.description, s5);
    lemma_sp_lit_prefix(a5, s6);
    lemma_sp_bool_enc(t.done, s7);
    lemma_sp_lit_prefix(a7, s8);
    lemma_sp_priority_enc(t.priority, s9);
    lemma_sp_lit_prefix(a9, s10);
    lemma_sp_qstring_enc(t.due_date, s11);
    lemma_sp_lit_prefix(a11, rest);
    assert(sp_task(s1) == Option::Some((t, rest)));
}

proof fn lemma_encode_task_first(t: TaskView)
    ensures
        spec_encode_task(t).len() >= 1,
        spec_encode_task(t)[0] == '{',
{
    reveal_strlit("{\"id\":");
    assert(lit_id_key().len() == 6);
    assert(spec_encode_task(t)[0] == lit_id_key()[0]);
}

proof fn lemma_encode_items_len(ts: Seq<TaskView>)
    ensures
        spec_encode_items(ts).len() >= ts.len(),
    decreases ts.len(),
{
    if ts.len() == 0 {
    } else if ts.len() == 1 {
        lemma_encode_task_first(ts[0]);
    } else {
        lemma_encode_task_first(ts[0]);
        lemma_encode_items_len(ts.skip(1));
    }
}

#[verifier::rlimit(100)]
proof fn lemma_sp_items_enc(ts: Seq<TaskView>, rest: Seq<char>, fuel: nat)
    requires
        ts.len() >= 1,
        fuel >= ts.len(),
    ensures
        sp_items(spec_encode_items(ts) + (seq![']'] + rest), fuel) == Option::Some((ts, rest)),
    decreases ts.len(),
{
    let s = spec_encode_items(ts) + (seq![']'] + rest);
    if ts.len() == 1 {
        let r = seq![']'] + rest;
        assert(s =~= spec_encode_task(ts[0]) + r);
        lemma_sp_task_enc(ts[0], r);
        assert(r[0] == ']');
        assert(r.skip(1) =~= rest);
        assert(seq![ts[0]] =~= ts);
    } else {
        let inner = spec_encode_items(ts.skip(1)) + (seq![']'] + rest);
        let r = seq![','] + inner;
        assert(s =~= spec_encode_task(ts[0]) + r);
        lemma_sp_task_enc(ts[0], r);
        assert(r[0] == ',');
        assert(r.skip(1) =~= inner);
        lemma_sp_items_enc(ts.skip(1), rest, (fuel - 1) as nat);
        assert(seq![ts[0]] + ts.skip(1) =~= ts);
    }
}

// ---------------------------------------------------------------------------
// The encoder.
// ---------------------------------------------------------------------------

fn digit_char_of(d: usize) -> (r: char)
    requires
        d < 10,
    ensures
        r == digit_char(d as nat),
{
    match d {
        0 => '0',
        1 => '1',
        2 => '2',
        3 => '3',
        4 => '4',
        5 => '5',
        6 => '6',
        7 => '7',
        8 => '8',
        _ => '9',
    }
}

pub(crate) fn push_dec(out: &mut Vec<char>, n: usize)
    ensures
        final(out)@ == old(out)@ + dec_digits(n as nat),
    decreases n,
{
    if n < 10 {
        out.push(digit_char_of(n));
        proof {
            assert(out@ =~= old(out)@ + dec_digits(n as nat));
        }
    } else {
        push_dec(out, n / 10);
        out.push(digit_char_of(n % 10));
        proof {
            assert(out@ =~= old(out)@ + dec_digits(n as nat));
        }
    }
}

proof fn lemma_esc_concat(a: Seq<char>, b: Seq<char>)
    ensures
        esc(a + b) == esc(a) + esc(b),
    decreases a.len(),
{
    if a.len() == 0 {
        assert(a + b =~= b);
        assert(esc(a) + esc(b) =~= esc(b));
    } else {
        assert((a + b)[0] == a[0]);
        assert((a + b).skip(1) =~= a.skip(1) + b);
        lemma_esc_concat(a.skip(1), b);
        assert(esc(a + b) =~= esc(a) + esc(b));
    }
}

fn push_escaped(out: &mut Vec<char>, t: &Vec<char>)
    ensures
        final(out)@ == old(out)@ + esc(t@),
{
    let n = t.len();
    let mut i: usize = 0;
    proof {
        assert(t@.subrange(0, 0) =~= Seq::<char>::empty());
        assert(out@ =~= old(out)@ + esc(t@.subrange(0, 0)));
    }
    while i < n
        invariant
            n == t@.len(),
            0 <= i <= n,
            out@ == old(out)@ + esc(t@.subrange(0, i as int)),
        decreases n - i,
    {
        let c = t[i];
        let ghost before = out@;
        if c == '"' || c == '\\' {
            out.push('\\');
            out.push(c);
            proof {
                assert(out@ =~= before + esc_char(c));
            }
        } else {
            out.push(c);
            proof {
                assert(out@ =~= before + esc_char(c));
            }
        }
        proof {
            let pre = t@.subrange(0, i as int);
            let pre2 = t@.subrange(0, i + 1);
            assert(pre2 =~= pre + seq![t@[i as int]]);
            lemma_esc_concat(pre, seq![t@[i as int]]);
            let single = seq![t@[i as int]];
            assert(single.skip(1) =~= Seq::<char>::empty());
            assert(esc(single.skip(1)) == Seq::<char>::empty());
            assert(esc(single) =~= esc_char(t@[i as int]));
            assert(out@ =~= old(out)@ + esc(pre2));
        }
        i += 1;
    }
    proof {
        assert(t@.subrange(0, n as int) =~= t@);
    }
}

fn push_qstr(out: &mut Vec<char>, s: &String)
    ensures
        final(out)@ == old(out)@ + qstr(s@),
{
    let cs = string_to_chars(s.as_str());
    out.push('"');
    push_escaped(out, &cs);
    out.push('"');
    proof {
        assert(out@ =~= old(out)@ + qstr(s@));
    }
}

#[verifier::rlimit(100)]
fn encode_task_into(out: &mut Vec<char>, t: &Task)
    ensures
        final(out)@ == old(out)@ + spec_encode_task(t@),
{
    let mut l = string_to_chars("{\"id\":");
    out.append(&mut l);
    push_dec(out, t.id);
    let mut l2 = string_to_chars(",\"description\":");
    out.append(&mut l2);
    push_qstr(out, &t.description);
    let mut l3 = string_to_chars(",\"done\":");
    out.append(&mut l3);
    if t.done {
        let mut b = string_to_chars("true");
        out.append(&mut b);
    } else {
        let mut b = string_to_chars("false");
        out.append(&mut b);
    }
    let mut l4 = string_to_chars(",\"priority\":");
    out.append(&mut l4);
    let tag = match t.priority {
        Priority::Low => string_to_chars("\"Low\""),
        Priority::Medium => string_to_chars("\"Medium\""),
        Priority::High => string_to_chars("\"High\""),
    };
    proof {
        assert(tag@ == qtag(t.priority));
    }
    let mut tag_m = tag;
    out.append(&mut tag_m);
    let mut l5 = string_to_chars(",\"due_date\":");
    out.append(&mut l5);
    push_qstr(out, &t.due_date);
    out.push('}');
    proof {
        reveal_strlit("}");
        assert(out@ =~= old(out)@ + spec_encode_task(t@));
    }
}

proof fn lemma_enc_items_snoc(ts: Seq<TaskView>, t: TaskView)
    ensures
        ts.len() == 0 ==> spec_encode_items(ts.push(t)) == spec_encode_task(t),
        ts.len() > 0 ==> spec_encode_items(ts.push(t)) == spec_encode_items(ts) + seq![',']
            + spec_encode_task(t),
    decreases ts.len(),
{
    if ts.len() == 0 {
        assert(ts.push(t)[0] == t);
    } else if ts.len() == 1 {
        let w = ts.push(t);
        assert(w.len() == 2);
        assert(w[0] == ts[0]);
        assert(w.skip(1) =~= seq![t]);
        assert(spec_encode_items(w.skip(1)) == spec_encode_task(t));
        assert(spec_encode_items(ts) == spec_encode_task(ts[0]));
    } else {
        let w = ts.push(t);
        assert(w[0] == ts[0]);
        assert(w.skip(1) =~= ts.skip(1).push(t));
        lemma_enc_items_snoc(ts.skip(1), t);
        assert(spec_encode_items(w) == spec_encode_task(ts[0]) + seq![','] + spec_encode_items(
            ts.skip(1).push(t),
        ));
        assert(spec_encode_items(w) =~= spec_encode_items(ts) + seq![','] + spec_encode_task(t));
    }
}

/// The stored text of a collection: what the save step writes.
pub fn save_to_text(tasks: &Vec<Task>) -> (r: String)
    ensures
        r@ == spec_encode_tasks(views_of(tasks@)),
{
    let mut out: Vec<char> = Vec::new();
    out.push('[');
    let n = tasks.len();
    let mut i: usize = 0;
    proof {
        assert(views_of(tasks@.subrange(0, 0)) =~= Seq::<TaskView>::empty());
        assert(out@ =~= seq!['['] + spec_encode_items(views_of(tasks@.subrange(0, 0))));
    }
    while i < n
        invariant
            n == tasks@.len(),
            0 <= i <= n,
            out@ == seq!['['] + spec_encode_items(views_of(tasks@.subrange(0, i as int))),
        decreases n - i,
    {
        let ghost pre = views_of(tasks@.subrange(0, i as int));
        let ghost before = out@;
        if i > 0 {
            out.push(',');
        }
        encode_task_into(&mut out, &tasks[i]);
        proof {
            let pre2 = views_of(tasks@.subrange(0, i + 1));
            assert(pre2 =~= pre.push(tasks@[i as int]@));
            lemma_enc_items_snoc(pre, tasks@[i as int]@);
            if i > 0 {
                assert(pre.len() > 0);
                assert(out@ =~= before + seq![','] + spec_encode_task(tasks@[i as int]@));
                assert(out@ =~= seq!['['] + spec_encode_items(pre2));
            } else {
                assert(pre.len() == 0);
                assert(out@ =~= seq!['['] + spec_encode_items(pre2));
            }
        }
        i += 1;
    }
    out.push(']');
    proof {
        assert(tasks@.subrange(0, n as int) =~= tasks@);
        assert(out@ =~= spec_encode_tasks(views_of(tasks@)));
    }
    string_from_chars(out)
}

// ---------------------------------------------------------------------------
// The parser.
// ---------------------------------------------------------------------------

fn match_lit(s: &Vec<char>, pos: usize, l: &Vec<char>) -> (r: Option<usize>)
    requires
        pos <= s@.len(),
    ensures
        match r {
            Option::Some(p2) => pos <= p2 <= s@.len() && p2 == pos + l@.len() && sp_lit(
                s@.skip(pos as int),
                l@,
            ) == Option::Some(s@.skip(p2 as int)),
            Option::None => sp_lit(s@.skip(pos as int), l@) == Option::<Seq<char>>::None,
        },
{
    let m = l.len();
    if s.len() - pos < m {
        proof {
            assert(s@.skip(pos as int).len() < l@.len());
        }
        return None;
    }
    let mut j: usize = 0;
    while j < m
        invariant
            pos <= s@.len(),
            s@.len() <= usize::MAX,
            m == l@.len(),
            pos + m <= s@.len(),
            0 <= j <= m,
            forall|k: int| 0 <= k < j ==> s@.skip(pos as int)[k] == l@[k],
        decreases m - j,
    {
        if s[pos + j] != l[j] {
            proof {
                assert(s@.skip(pos as int)[j as int] == s@[pos + j]);
                lemma_sp_lit_mismatch(s@.skip(pos as int), l@, j as int);
            }
            return None;
        }
        proof {
            assert(s@.skip(pos as int)[j as int] == s@[pos + j]);
        }
        j += 1;
    }
    proof {
        assert(s@.skip(pos as int).subrange(0, m as int) =~= l@);
        assert(s@.skip(pos as int).skip(m as int) =~= s@.skip((pos + m) as int));
    }
    Some(pos + m)
}

fn digit_value(c: char) -> (r: Option<usize>)
    ensures
        match r {
            Option::Some(d) => is_digit(c) && d < 10 && d as nat == digit_val(c),
            Option::None => !is_digit(c),
        },
{
    match c {
        '0' => Some(0),
        '1' => Some(1),
        '2' => Some(2),
        '3' => Some(3),
        '4' => Some(4),
        '5' => Some(5),
        '6' => Some(6),
        '7' => Some(7),
        '8' => Some(8),
        '9' => Some(9),
        _ => None,
    }
}

fn parse_nat_at(s: &Vec<char>, pos: usize) -> (r: Option<(usize, usize)>)
    requires
        pos <= s@.len(),
    ensures
        match r {
            Option::Some(vp) => pos < vp.1 <= s@.len() && sp_nat(s@.skip(pos as int))
                == Option::Some((vp.0 as nat, s@.skip(vp.1 as int))),
            Option::None => sp_nat(s@.skip(pos as int)) == Option::<(nat, Seq<char>)>::None,
        },
{
    if pos >= s.len() {
        proof {
            assert(s@.skip(pos as int).len() == 0);
        }
        return None;
    }
    let d0 = match digit_value(s[pos]) {
        Some(d) => d,
        None => {
            proof {
                assert(s@.skip(pos as int)[0] == s@[pos as int]);
            }
            return None;
        },
    };
    proof {
        assert(s@.skip(pos as int)[0] == s@[pos as int]);
    }
    let mut acc: u128 = d0 as u128;
    let mut i: usize = pos + 1;
    proof {
        let su = s@.skip(pos as int);
        assert(su.skip(1) =~= s@.skip(pos + 1));
        assert(sp_digits(su, 0) == sp_digits(s@.skip(pos + 1), (0 * 10 + digit_val(su[0])) as nat));
    }
    while i < s.len()
        invariant
            pos < i <= s@.len(),
            acc <= usize::MAX as u128,
            sp_digits(s@.skip(pos as int), 0) == sp_digits(s@.skip(i as int), acc as nat),
            s@.skip(pos as int).len() > 0 && is_digit(s@.skip(pos as int)[0]),
        decreases s@.len() - i,
    {
        let c = s[i];
        let d = match digit_value(c) {
            Some(d) => d,
            None => {
                proof {
                    assert(s@.skip(i as int)[0] == s@[i as int]);
                    assert(sp_digits(s@.skip(i as int), acc as nat) == (acc as nat, s@.skip(
                        i as int,
                    )));
                }
                return Some((acc as usize, i));
            },
        };
        let acc2: u128 = acc * 10 + (d as u128);
        proof {
            let su = s@.skip(i as int);
            assert(su[0] == s@[i as int]);
            assert(su.skip(1) =~= s@.skip(i + 1));
            assert(sp_digits(su, acc as nat) == sp_digits(
                s@.skip(i + 1),
                (acc as nat) * 10 + digit_val(su[0]),
            ));
            assert(acc2 as nat == (acc as nat) * 10 + digit_val(su[0]));
        }
        if acc2 > usize::MAX as u128 {
            proof {
                lemma_sp_digits_ge(s@.skip(i + 1), acc2 as nat);
                assert(sp_digits(s@.skip(pos as int), 0).0 > usize::MAX as nat);
            }
            return None;
        }
        acc = acc2;
        i += 1;
    }
    proof {
        assert(s@.skip(i as int).len() == 0);
        assert(sp_digits(s@.skip(i as int), acc as nat) == (acc as nat, s@.skip(i as int)));
    }
    Some((acc as usize, i))
}

fn parse_string_at(s: &Vec<char>, pos: usize) -> (r: Option<(Vec<char>, usize)>)
    requires
        pos <= s@.len(),
    ensures
        match r {
            Option::Some(cp) => pos < cp.1 <= s@.len() && sp_string(s@.skip(pos as int))
                == Option::Some((cp.0@, s@.skip(cp.1 as int))),
            Option::None => sp_string(s@.skip(pos as int)) == Option::<(Seq<char>, Seq<char>)>::None,
        },
{
    let mut out: Vec<char> = Vec::new();
    let mut i: usize = pos;
    proof {
        if let Option::Some(p) = sp_string(s@.skip(pos as int)) {
            assert(out@ + p.0 =~= p.0);
        }
    }
    while i < s.len()
        invariant
            pos <= i <= s@.len(),
            (match sp_string(s@.skip(i as int)) {
                Option::Some(p) => sp_string(s@.skip(pos as int)) == Option::Some(
                    (out@ + p.0, p.1),
                ),
                Option::None => sp_string(s@.skip(pos as int)) == Option::<
                    (Seq<char>, Seq<char>),
                >::None,
            }),
        decreases s@.len() - i,
    {
        let c = s[i];
        proof {
            assert(s@.skip(i as int)[0] == s@[i as int]);
        }
        if c == '"' {
            proof {
                let su = s@.skip(i as int);
                assert(su.skip(1) =~= s@.skip(i + 1));
                assert(sp_string(su) == Option::Some((Seq::<char>::empty(), s@.skip(i + 1))));
                assert(out@ + Seq::<char>::empty() =~= out@);
            }
            return Some((out, i + 1));
        } else if c == '\\' {
            if i + 1 >= s.len() {
                proof {
                    let su = s@.skip(i as int);
                    assert(su.len() < 2);
                }
                return None;
            }
            let c2 = s[i + 1];
            let ghost before = out@;
            out.push(c2);
            proof {
                let su = s@.skip(i as int);
                assert(su.len() >= 2);
                assert(su[1] == s@[i + 1]);
                assert(su.skip(2) =~= s@.skip(i + 2));
                if let Option::Some(q) = sp_string(s@.skip(i + 2)) {
                    assert(sp_string(su) == Option::Some((seq![su[1]] + q.0, q.1)));
                    assert(before + (seq![su[1]] + q.0) =~= out@ + q.0);
                }
            }
            i += 2;
        } else {
            let ghost before = out@;
            out.push(c);
            proof {
                let su = s@.skip(i as int);
                assert(su.skip(1) =~= s@.skip(i + 1));
                if let Option::Some(q) = sp_string(s@.skip(i + 1)) {
                    assert(sp_string(su) == Option::Some((seq![su[0]] + q.0, q.1)));
                    assert(before + (seq![su[0]] + q.0) =~= out@ + q.0);
                }
            }
            i += 1;
        }
    }
    proof {
        assert(s@.skip(i as int).len() == 0);
    }
    None
}

fn parse_qstring_at(s: &Vec<char>, pos: usize) -> (r: Option<(Vec<char>, usize)>)
    requires
        pos <= s@.len(),
    ensures
        match r {
            Option::Some(cp) => pos < cp.1 <= s@.len() && sp_qstring(s@.skip(pos as int))
                == Option::Some((cp.0@, s@.skip(cp.1 as int))),
            Option::None => sp_qstring(s@.skip(pos as int)) == Option::<
                (Seq<char>, Seq<char>),
            >::None,
        },
{
    if pos >= s.len() || s[pos] != '"' {
        proof {
            if pos < s.len() {
                assert(s@.skip(pos as int)[0] == s@[pos as int]);
            }
        }
        return None;
    }
    proof {
        assert(s@.skip(pos as int)[0] == s@[pos as int]);
        assert(s@.skip(pos as int).skip(1) =~= s@.skip(pos + 1));
    }
    parse_string_at(s, pos + 1)
}

fn parse_bool_at(s: &Vec<char>, pos: usize) -> (r: Option<(bool, usize)>)
    requires
        pos <= s@.len(),
    ensures
        match r {
            Option::Some(bp) => pos < bp.1 <= s@.len() && sp_bool(s@.skip(pos as int))
                == Option::Some((bp.0, s@.skip(bp.1 as int))),
            Option::None => sp_bool(s@.skip(pos as int)) == Option::<(bool, Seq<char>)>::None,
        },
{
    proof {
        reveal_strlit("true");
        reveal_strlit("false");
    }
    let lt = string_to_chars("true");
    match match_lit(s, pos, &lt) {
        Some(p2) => {
            return Some((true, p2));
        },
        None => {
        },
    }
    let lf = string_to_chars("false");
    match match_lit(s, pos, &lf) {
        Some(p2) => Some((false, p2)),
        None => None,
    }
}

fn parse_priority_at(s: &Vec<char>, pos: usize) -> (r: Option<(Priority, usize)>)
    requires
        pos <= s@.len(),
    ensures
        match r {
            Option::Some(pp) => pos < pp.1 <= s@.len() && sp_priority(s@.skip(pos as int))
                == Option::Some((pp.0, s@.skip(pp.1 as int))),
            Option::None => sp_priority(s@.skip(pos as int)) == Option::<
                (Priority, Seq<char>),
            >::None,
        },
{
    proof {
        reveal_strlit("\"Low\"");
        reveal_strlit("\"Medium\"");
        reveal_strlit("\"High\"");
    }
    let ll = string_to_chars("\"Low\"");
    match match_lit(s, pos, &ll) {
        Some(p2) => {
            return Some((Priority::Low, p2));
        },
        None => {
        },
    }
    let lm = string_to_chars("\"Medium\"");
    match match_lit(s, pos, &lm) {
        Some(p2) => {
            return Some((Priority::Medium, p2));
        },
        None => {
        },
    }
    let lh = string_to_chars("\"High\"");
    match match_lit(s, pos, &lh) {
        Some(p2) => Some((Priority::High, p2)),
        None => None,
    }
}

#[verifier::rlimit(100)]
fn parse_task_at(s: &Vec<char>, pos: usize) -> (r: Option<(Task, usize)>)
    requires
        pos <= s@.len(),
    ensures
        match r {
            Option::Some(tp) => pos < tp.1 <= s@.len() && sp_task(s@.skip(pos as int))
                == Option::Some((tp.0@, s@.skip(tp.1 as int))),
            Option::None => sp_task(s@.skip(pos as int)) == Option::<(TaskView, Seq<char>)>::None,
        },
{
    proof {
        reveal_strlit("{\"id\":");
        reveal_strlit("}");
    }
    let l1 = string_to_chars("{\"id\":");
    let p1 = match match_lit(s, pos, &l1) {
        Some(p) => p,
        None => {
            return None;
        },
    };
    let (id, p2) = match parse_nat_at(s, p1) {
        Some(v) => v,
        None => {
            return None;
        },
    };
    let l2 = string_to_chars(",\"description\":");
    let p3 = match match_lit(s, p2, &l2) {
        Some(p) => p,
        None => {
            return None;
        },
    };
    let (desc, p4) = match parse_qstring_at(s, p3) {
        Some(v) => v,
        None => {
            return None;
        },
    };
    let l3 = string_to_chars(",\"done\":");
    let p5 = match match_lit(s, p4, &l3) {
        Some(p) => p,
        None => {
            return None;
        },
    };
    let (dn, p6) = match parse_bool_at(s, p5) {
        Some(v) => v,
        None => {
            return None;
        },
    };
    let l4 = string_to_chars(",\"priority\":");
    let p7 = match match_lit(s, p6, &l4) {
        Some(p) => p,
        None => {
            return None;
        },
    };
    let (prio, p8) = match parse_priority_at(s, p7) {
        Some(v) => v,
        None => {
            return None;
        },
    };
    let l5 = string_to_chars(",\"due_date\":");
    let p9 = match match_lit(s, p8, &l5) {
        Some(p) => p,
        None => {
            return None;
        },
    };
    let (due, p10) = match parse_qstring_at(s, p9) {
        Some(v) => v,
        None => {
            return None;
        },
    };
    let l6 = string_to_chars("}");
    let p11 = match match_lit(s, p10, &l6) {
        Some(p) => p,
        None => {
            return None;
        },
    };
    let t = Task {
        id,
        description: string_from_chars(desc),
        done: dn,
        priority: prio,
        due_date: string_from_chars(due),
    };
    Some((t, p11))
}

fn parse_items_at(s: &Vec<char>, pos: usize, fuel: Ghost<nat>) -> (r: Option<(Vec<Task>, usize)>)
    requires
        pos <= s@.len(),
        fuel@ >= s@.len() - pos,
    ensures
        match r {
            Option::Some(vp) => vp.1 <= s@.len() && sp_items(s@.skip(pos as int), fuel@)
                == Option::Some((views_of(vp.0@), s@.skip(vp.1 as int))),
            Option::None => sp_items(s@.skip(pos as int), fuel@) == Option::<
                (Seq<TaskView>, Seq<char>),
            >::None,
        },
    decreases s@.len() - pos,
{
    let (t, p1) = match parse_task_at(s, pos) {
        Some(v) => v,
        None => {
            return None;
        },
    };
    proof {
        assert(fuel@ >= 1);
    }
    if p1 < s.len() && s[p1] == ',' {
        proof {
            assert(s@.skip(pos as int).len() > 0);
            assert(s@.skip(p1 as int)[0] == s@[p1 as int]);
            assert(s@.skip(p1 as int).skip(1) =~= s@.skip(p1 + 1));
        }
        match parse_items_at(s, p1 + 1, Ghost((fuel@ - 1) as nat)) {
            Some((rest, p2)) => {
                let mut v = rest;
                v.insert(0, t);
                proof {
                    assert(views_of(v@) =~= seq![t@] + views_of(v@.skip(1)));
                    assert(v@.skip(1) =~= v@.subrange(1, v@.len() as int));
                }
                Some((v, p2))
            },
            None => None,
        }
    } else if p1 < s.len() && s[p1] == ']' {
        proof {
            assert(s@.skip(p1 as int)[0] == s@[p1 as int]);
            assert(s@.skip(p1 as int).skip(1) =~= s@.skip(p1 + 1));
        }
        let mut v: Vec<Task> = Vec::new();
        v.push(t);
        proof {
            assert(views_of(v@) =~= seq![t@]);
        }
        Some((v, p1 + 1))
    } else {
        proof {
            let rsuf = s@.skip(p1 as int);
            if rsuf.len() > 0 {
                assert(rsuf[0] == s@[p1 as int]);
            }
        }
        None
    }
}

/// Decode a stored text, if it is one the encoder writes.
pub fn decode_tasks(s: &Vec<char>) -> (r: Option<Vec<Task>>)
    ensures
        match r {
            Option::Some(v) => sp_tasks(s@) == Option::Some(views_of(v@)),
            Option::None => sp_tasks(s@) == Option::<Seq<TaskView>>::None,
        },
{
    if s.len() == 0 || s[0] != '[' {
        return None;
    }
    if s.len() >= 2 && s[1] == ']' {
        if s.len() == 2 {
            let v: Vec<Task> = Vec::new();
            proof {
                assert(s@.skip(1).len() == 1);
                assert(s@.skip(1)[0] == ']');
                assert(views_of(v@) =~= Seq::<TaskView>::empty());
            }
            return Some(v);
        } else {
            proof {
                assert(s@.skip(1).len() > 1);
                assert(s@.skip(1)[0] == ']');
            }
            return None;
        }
    }
    proof {
        if s@.len() >= 2 {
            assert(s@.skip(1)[0] == s@[1]);
        }
    }
    match parse_items_at(s, 1, Ghost((s@.len() - 1) as nat)) {
        Some((v, p)) => {
            if p == s.len() {
                proof {
                    assert(s@.skip(p as int).len() == 0);
                }
                Some(v)
            } else {
                proof {
                    assert(s@.skip(p as int).len() != 0);
                }
                None
            }
        },
        None => None,
    }
}

/// The collection a stored text denotes; an unreadable text denotes the
/// empty collection.
pub fn load_from_text(s: &str) -> (r: Vec<Task>)
    ensures
        views_of(r@) == (match sp_tasks(s@) {
            Option::Some(ts) => ts,
            Option::None => Seq::<TaskView>::empty(),
        }),
{
    let cs = string_to_chars(s);
    match decode_tasks(&cs) {
        Some(v) => v,
        None => {
            let v: Vec<Task> = Vec::new();
            proof {
                assert(views_of(v@) =~= Seq::<TaskView>::empty());
            }
            v
        },
    }
}

/// Law: saving a collection and loading the text back yields the identical
/// ordered collection — same ids, descriptions, flags, priorities and due
/// dates — for every collection.
pub proof fn lemma_store_round_trip(ts: Seq<TaskView>)
    ensures
        sp_tasks(spec_encode_tasks(ts)) == Option::Some(ts),
{
    let s = spec_encode_tasks(ts);
    assert(s[0] == '[');
    let s1 = s.skip(1);
    assert(s1 =~= spec_encode_items(ts) + seq![']']);
    if ts.len() == 0 {
        assert(s1 =~= seq![']']);
        assert(s1[0] == ']' && s1.len() == 1);
    } else {
        lemma_encode_task_first(ts[0]);
        assert(s1[0] == spec_encode_task(ts[0])[0]);
        assert(s1[0] == '{');
        lemma_encode_items_len(ts);
        assert(s1 =~= spec_encode_items(ts) + (seq![']'] + Seq::<char>::empty()));
        lemma_sp_items_enc(ts, Seq::empty(), s1.len() as nat);
        assert(sp_items(s1, s1.len() as nat) == Option::Some((ts, Seq::<char>::empty())));
    }
}

} // verus!

//! The persistence codec: renders the task and user collections as the two
//! JSON documents the tracker persists, and parses those documents back.
//!
//! The encoder produces one canonical rendering - compact, fields in a fixed
//! order, strings escaped with `\"`, `\\` and `\u00XX` for control
//! characters - and the parser accepts exactly that rendering, so a document
//! either reproduces the collection it was written from or is rejected as
//! corrupt. The round-trip laws at the end of the module prove that parsing
//! an encoded collection always gives the collection back.

use vstd::prelude::*;

use crate::store::{Task, TaskV, User, UserV};

verus! {

// ---------------------------------------------------------------------------
// Decimal numbers
// ---------------------------------------------------------------------------

pub open spec fn is_digit(c: char) -> bool {
    c == '0' || c == '1' || c == '2' || c == '3' || c == '4' || c == '5' || c == '6' || c == '7'
        || c == '8' || c == '9'
}

pub open spec fn digit_char(d: nat) -> char {
    if d == 0 {
        '0'
    } else if d == 1 {
        '1'
    } else if d == 2 {
        '2'
    } else if d == 3 {
        '3'
    } else if d == 4 {
        '4'
    } else if d == 5 {
        '5'
    } else if d == 6 {
        '6'
    } else if d == 7 {
        '7'
    } else if d == 8 {
        '8'
    } else {
        '9'
    }
}

pub open spec fn digit_val(c: char) -> nat {
    if c == '0' {
        0
    } else if c == '1' {
        1
    } else if c == '2' {
        2
    } else if c == '3' {
        3
    } else if c == '4' {
        4
    } else if c == '5' {
        5
    } else if c == '6' {
        6
    } else if c == '7' {
        7
    } else if c == '8' {
        8
    } else {
        9
    }
}

/// The decimal digits of `n`, most significant first, no leading zeros.
pub open spec fn dec_digits(n: nat) -> Seq<char>
    decreases n,
{
    if n < 10 {
        seq![digit_char(n)]
    } else {
        dec_digits(n / 10).push(digit_char(n % 10))
    }
}

pub open spec fn enc_u32(n: u32) -> Seq<char> {
    dec_digits(n as nat)
}

pub open spec fn enc_i64(n: i64) -> Seq<char> {
    if n >= 0 {
        dec_digits(n as nat)
    } else {
        seq!['-'] + dec_digits((-(n as int)) as nat)
    }
}

/// How many leading characters of `s` are decimal digits.
pub open spec fn digit_count(s: Seq<char>) -> nat
    decreases s.len(),
{
    if s.len() > 0 && is_digit(s[0]) {
        (1 + digit_count(s.drop_first())) as nat
    } else {
        0
    }
}

/// The value of a sequence of decimal digits, most significant first.
pub open spec fn digits_val(s: Seq<char>) -> nat
    decreases s.len(),
{
    if s.len() == 0 {
        0
    } else {
        digits_val(s.drop_last()) * 10 + digit_val(s.last())
    }
}

/// Greedily parses an unsigned decimal number without leading zeros.
pub open spec fn parse_nat(s: Seq<char>) -> Option<(nat, Seq<char>)> {
    let k = digit_count(s);
    if k == 0 {
        None
    } else if k > 1 && s[0] == '0' {
        None
    } else {
        Some((digits_val(s.take(k as int)), s.skip(k as int)))
    }
}

pub open spec fn parse_u32(s: Seq<char>) -> Option<(u32, Seq<char>)> {
    match parse_nat(s) {
        None => None,
        Some((v, r)) => if v <= u32::MAX {
            Some((v as u32, r))
        } else {
            None
        },
    }
}

pub open spec fn parse_i64(s: Seq<char>) -> Option<(i64, Seq<char>)> {
    if s.len() > 0 && s[0] == '-' {
        match parse_nat(s.drop_first()) {
            None => None,
            Some((v, r)) => if 1 <= v <= 0x8000_0000_0000_0000 {
                Some(((-(v as int)) as i64, r))
            } else {
                None
            },
        }
    } else {
        match parse_nat(s) {
            None => None,
            Some((v, r)) => if v <= i64::MAX {
                Some((v as i64, r))
            } else {
                None
            },
        }
    }
}

// ---------------------------------------------------------------------------
// Strings
// ---------------------------------------------------------------------------

pub open spec fn is_hex_char(c: char) -> bool {
    is_digit(c) || c == 'a' || c == 'b' || c == 'c' || c == 'd' || c == 'e' || c == 'f'
}

pub open spec fn hex_char(d: nat) -> char {
    if d < 10 {
        digit_char(d)
    } else if d == 10 {
        'a'
    } else if d == 11 {
        'b'
    } else if d == 12 {
        'c'
    } else if d == 13 {
        'd'
    } else if d == 14 {
        'e'
    } else {
        'f'
    }
}

pub open spec fn hex_val(c: char) -> nat {
    if is_digit(c) {
        digit_val(c)
    } else if c == 'a' {
        10
    } else if c == 'b' {
        11
    } else if c == 'c' {
        12
    } else if c == 'd' {
        13
    } else if c == 'e' {
        14
    } else {
        15
    }
}

/// How one character is written inside a JSON string: quotes and backslashes
/// get a backslash escape, control characters a `\u00XX` escape, everything
/// else stands for itself.
pub open spec fn esc_char(c: char) -> Seq<char> {
    if c == '"' {
        seq!['\\', '"']
    } else if c == '\\' {
        seq!['\\', '\\']
    } else if (c as u32) < 32 {
        seq!['\\', 'u', '0', '0', hex_char((c as u32 / 16) as nat), hex_char(
            (c as u32 % 16) as nat,
        )]
    } else {
        seq![c]
    }
}

pub open spec fn esc(s: Seq<char>) -> Seq<char>
    decreases s.len(),
{
    if s.len() == 0 {
        Seq::empty()
    } else {
        esc_char(s[0]) + esc(s.drop_first())
    }
}

/// A full JSON string: quote, escaped content, quote.
pub open spec fn enc_str(s: Seq<char>) -> Seq<char> {
    seq!['"'] + esc(s) + seq!['"']
}

/// Parses the characters of a JSON string up to and over the closing quote,
/// accepting exactly the escapes the encoder writes.
pub open spec fn parse_str_body(s: Seq<char>) -> Option<(Seq<char>, Seq<char>)>
    decreases s.len(),
{
    if s.len() == 0 {
        None
    } else if s[0] == '"' {
        Some((Seq::empty(), s.drop_first()))
    } else if s[0] == '\\' {
        if s.len() >= 2 && (s[1] == '"' || s[1] == '\\') {
            match parse_str_body(s.skip(2)) {
                None => None,
                Some((t, r)) => Some((seq![s[1]] + t, r)),
            }
        } else if s.len() >= 6 && s[1] == 'u' && s[2] == '0' && s[3] == '0' && is_hex_char(s[4])
            && is_hex_char(s[5]) && hex_val(s[4]) * 16 + hex_val(s[5]) < 32 {
            match parse_str_body(s.skip(6)) {
                None => None,
                Some((t, r)) => Some(
                    (seq![(((hex_val(s[4]) * 16 + hex_val(s[5])) as u32) as char)] + t, r),
                ),
            }
        } else {
            None
        }
    } else if (s[0] as u32) >= 32 {
        match parse_str_body(s.drop_first()) {
            None => None,
            Some((t, r)) => Some((seq![s[0]] + t, r)),
        }
    } else {
        None
    }
}

/// Parses a full JSON string, opening quote included.
pub open spec fn parse_str(s: Seq<char>) -> Option<(Seq<char>, Seq<char>)> {
    if s.len() > 0 && s[0] == '"' {
        parse_str_body(s.drop_first())
    } else {
        None
    }
}

// ---------------------------------------------------------------------------
// Literals and booleans
// ---------------------------------------------------------------------------

/// Consumes `l` from the front of `s`, or fails.
pub open spec fn parse_lit(s: Seq<char>, l: Seq<char>) -> Option<Seq<char>> {
    if l.len() <= s.len() && s.take(l.len() as int) == l {
        Some(s.skip(l.len() as int))
    } else {
        None
    }
}

pub open spec fn enc_bool(b: bool) -> Seq<char> {
    if b {
        seq!['t', 'r', 'u', 'e']
    } else {
        seq!['f', 'a', 'l', 's', 'e']
    }
}

pub open spec fn parse_bool(s: Seq<char>) -> Option<(bool, Seq<char>)> {
    match parse_lit(s, enc_bool(true)) {
        Some(r) => Some((true, r)),
        None => match parse_lit(s, enc_bool(false)) {
            Some(r) => Some((false, r)),
            None => None,
        },
    }
}

// ---------------------------------------------------------------------------
// Task and user documents
// ---------------------------------------------------------------------------

pub open spec fn lit_id() -> Seq<char> {
    seq!['{', '"', 'i', 'd', '"', ':']
}

pub open spec fn lit_title() -> Seq<char> {
    seq![',', '"', 't', 'i', 't', 'l', 'e', '"', ':']
}

pub open spec fn lit_description() -> Seq<char> {
    seq![',', '"', 'd', 'e', 's', 'c', 'r', 'i', 'p', 't', 'i', 'o', 'n', '"', ':']
}

pub open spec fn lit_completed() -> Seq<char> {
    seq![',', '"', 'c', 'o', 'm', 'p', 'l', 'e', 't', 'e', 'd', '"', ':']
}

pub open spec fn lit_created_at() -> Seq<char> {
    seq![',', '"', 'c', 'r', 'e', 'a', 't', 'e', 'd', '_', 'a', 't', '"', ':']
}

pub open spec fn lit_user_id() -> Seq<char> {
    seq![',', '"', 'u', 's', 'e', 'r', '_', 'i', 'd', '"', ':']
}

pub open spec fn lit_username() -> Seq<char> {
    seq!['{', '"', 'u', 's', 'e', 'r', 'n', 'a', 'm', 'e', '"', ':']
}

pub open spec fn lit_password() -> Seq<char> {
    seq![',', '"', 'p', 'a', 's', 's', 'w', 'o', 'r', 'd', '"', ':']
}

/// One task record: `{"id":..,"title":..,"description":..,"completed":..,
/// "created_at":..,"user_id":..}`.
pub open spec fn enc_task_obj(t: TaskV) -> Seq<char> {
    lit_id() + enc_u32(t.id) + lit_title() + enc_str(t.title) + lit_description() + enc_str(
        t.description,
    ) + lit_completed() + enc_bool(t.completed) + lit_created_at() + enc_i64(t.created_at)
        + lit_user_id() + enc_str(t.user_id) + seq!['}']
}

/// One task entry of the top-level document: the id again as the key, then
/// the record.
pub open spec fn enc_task_entry(t: TaskV) -> Seq<char> {
    seq!['"'] + enc_u32(t.id) + seq!['"', ':'] + enc_task_obj(t)
}

pub open spec fn enc_task_list(ts: Seq<TaskV>) -> Seq<char>
    decreases ts.len(),
{
    if ts.len() == 0 {
        Seq::empty()
    } else if ts.len() == 1 {
        enc_task_entry(ts[0])
    } else {
        enc_task_entry(ts[0]) + seq![','] + enc_task_list(ts.drop_first())
    }
}

/// The whole persisted task document.
pub open spec fn enc_tasks(ts: Seq<TaskV>) -> Seq<char> {
    seq!['{'] + enc_task_list(ts) + seq!['}']
}

/// One user record: `{"username":..,"password":..}`.
pub open spec fn enc_user_obj(u: UserV) -> Seq<char> {
    lit_username() + enc_str(u.username) + lit_password() + enc_str(u.password) + seq!['}']
}

/// One user entry: the username as the key, then the record.
pub open spec fn enc_user_entry(u: UserV) -> Seq<char> {
    enc_str(u.username) + seq![':'] + enc_user_obj(u)
}

pub open spec fn enc_user_list(us: Seq<UserV>) -> Seq<char>
    decreases us.len(),
{
    if us.len() == 0 {
        Seq::empty()
    } else if us.len() == 1 {
        enc_user_entry(us[0])
    } else {
        enc_user_entry(us[0]) + seq![','] + enc_user_list(us.drop_first())
    }
}

/// The whole persisted user document.
pub open spec fn enc_users(us: Seq<UserV>) -> Seq<char> {
    seq!['{'] + enc_user_list(us) + seq!['}']
}

pub open spec fn parse_task_obj(s: Seq<char>) -> Option<(TaskV, Seq<char>)> {
    match parse_lit(s, lit_id()) {
        None => None,
        Some(s1) => match parse_u32(s1) {
            None => None,
            Some((id, s2)) => match parse_lit(s2, lit_title()) {
                None => None,
                Some(s3) => match parse_str(s3) {
                    None => None,
                    Some((title, s4)) => match parse_lit(s4, lit_description()) {
                        None => None,
                        Some(s5) => match parse_str(s5) {
                            None => None,
                            Some((description, s6)) => match parse_lit(s6, lit_completed()) {
                                None => None,
                                Some(s7) => match parse_bool(s7) {
                                    None => None,
                                    Some((completed, s8)) => match parse_lit(
                                        s8,
                                        lit_created_at(),
                                    ) {
                                        None => None,
                                        Some(s9) => match parse_i64(s9) {
                                            None => None,
                                            Some((created_at, s10)) => match parse_lit(
                                                s10,
                                                lit_user_id(),
                                            ) {
                                                None => None,
                                                Some(s11) => match parse_str(s11) {
                                                    None => None,
                                                    Some((user_id, s12)) => match parse_lit(
                                                        s12,
                                                        seq!['}'],
                                                    ) {
                                                        None => None,
                                                        Some(s13) => Some(
                                                            (
                                                                TaskV {
                                                                    id,
                                                                    title,
                                                                    description,
                                                                    completed,
                                                                    created_at,
                                                                    user_id,
                                                                },
                                                                s13,
                                                            ),
                                                        ),
                                                    },
                                                },
                                            },
                                        },
                                    },
                                },
                            },
                        },
                    },
                },
            },
        },
    }
}

/// A task entry is accepted only when the key repeats the record's id.
pub open spec fn parse_task_entry(s: Seq<char>) -> Option<(TaskV, Seq<char>)> {
    match parse_lit(s, seq!['"']) {
        None => None,
        Some(s1) => match parse_u32(s1) {
            None => None,
            Some((key, s2)) => match parse_lit(s2, seq!['"', ':']) {
                None => None,
                Some(s3) => match parse_task_obj(s3) {
                    None => None,
                    Some((t, s4)) => if t.id == key {
                        Some((t, s4))
                    } else {
                        None
                    },
                },
            },
        },
    }
}

pub open spec fn parse_user_obj(s: Seq<char>) -> Option<(UserV, Seq<char>)> {
    match parse_lit(s, lit_username()) {
        None => None,
        Some(s1) => match parse_str(s1) {
            None => None,
            Some((username, s2)) => match parse_lit(s2, lit_password()) {
                None => None,
                Some(s3) => match parse_str(s3) {
                    None => None,
                    Some((password, s4)) => match parse_lit(s4, seq!['}']) {
                        None => None,
                        Some(s5) => Some((UserV { username, password }, s5)),
                    },
                },
            },
        },
    }
}

/// A user entry is accepted only when the key repeats the record's username.
pub open spec fn parse_user_entry(s: Seq<char>) -> Option<(UserV, Seq<char>)> {
    match parse_str(s) {
        None => None,
        Some((key, s1)) => match parse_lit(s1, seq![':']) {
            None => None,
            Some(s2) => match parse_user_obj(s2) {
                None => None,
                Some((u, s3)) => if u.username == key {
                    Some((u, s3))
                } else {
                    None
                },
            },
        },
    }
}

pub proof fn lemma_digit_count_le(s: Seq<char>)
    ensures
        digit_count(s) <= s.len(),
    decreases s.len(),
{
    if s.len() > 0 && is_digit(s[0]) {
        lemma_digit_count_le(s.drop_first());
    }
}

pub broadcast proof fn lemma_parse_nat_len(s: Seq<char>)
    ensures
        (#[trigger] parse_nat(s)) matches Some(p) ==> p.1.len() < s.len(),
{
    lemma_digit_count_le(s);
}

pub broadcast proof fn lemma_parse_str_body_len(s: Seq<char>)
    ensures
        (#[trigger] parse_str_body(s)) matches Some(p) ==> p.1.len() < s.len(),
    decreases s.len(),
{
    if s.len() == 0 {
    } else if s[0] == '"' {
    } else if s[0] == '\\' {
        if s.len() >= 2 && (s[1] == '"' || s[1] == '\\') {
            lemma_parse_str_body_len(s.skip(2));
        } else if s.len() >= 6 && s[1] == 'u' && s[2] == '0' && s[3] == '0' && is_hex_char(s[4])
            && is_hex_char(s[5]) && hex_val(s[4]) * 16 + hex_val(s[5]) < 32 {
            lemma_parse_str_body_len(s.skip(6));
        }
    } else {
        lemma_parse_str_body_len(s.drop_first());
    }
}

pub broadcast proof fn lemma_parse_task_obj_len(s: Seq<char>)
    ensures
        (#[trigger] parse_task_obj(s)) matches Some(p) ==> p.1.len() < s.len(),
{
    broadcast use lemma_parse_nat_len, lemma_parse_str_body_len;

}

pub broadcast proof fn lemma_parse_task_entry_len(s: Seq<char>)
    ensures
        (#[trigger] parse_task_entry(s)) matches Some(p) ==> p.1.len() < s.len(),
{
    broadcast use lemma_parse_nat_len, lemma_parse_str_body_len, lemma_parse_task_obj_len;

}

pub broadcast proof fn lemma_parse_user_obj_len(s: Seq<char>)
    ensures
        (#[trigger] parse_user_obj(s)) matches Some(p) ==> p.1.len() < s.len(),
{
    broadcast use lemma_parse_str_body_len;

}

pub broadcast proof fn lemma_parse_user_entry_len(s: Seq<char>)
    ensures
        (#[trigger] parse_user_entry(s)) matches Some(p) ==> p.1.len() < s.len(),
{
    broadcast use lemma_parse_str_body_len, lemma_parse_user_obj_len;

}

/// The entries of the task document, comma-separated, at least one.
pub open spec fn parse_task_list(s: Seq<char>) -> Option<(Seq<TaskV>, Seq<char>)>
    decreases s.len(),
    via parse_task_list_dec
{
    match parse_task_entry(s) {
        None => None,
        Some((t, r)) => if r.len() > 0 && r[0] == ',' {
            match parse_task_list(r.drop_first()) {
                None => None,
                Some((ts, r2)) => Some((seq![t] + ts, r2)),
            }
        } else {
            Some((seq![t], r))
        },
    }
}

#[via_fn]
proof fn parse_task_list_dec(s: Seq<char>) {
    broadcast use lemma_parse_task_entry_len;

}

/// The entries of the user document, comma-separated, at least one.
pub open spec fn parse_user_list(s: Seq<char>) -> Option<(Seq<UserV>, Seq<char>)>
    decreases s.len(),
    via parse_user_list_dec
{
    match parse_user_entry(s) {
        None => None,
        Some((u, r)) => if r.len() > 0 && r[0] == ',' {
            match parse_user_list(r.drop_first()) {
                None => None,
                Some((us, r2)) => Some((seq![u] + us, r2)),
            }
        } else {
            Some((seq![u], r))
        },
    }
}

#[via_fn]
proof fn parse_user_list_dec(s: Seq<char>) {
    broadcast use lemma_parse_user_entry_len;

}

/// The whole task document: `{}` or `{` entries `}` with nothing left over.
pub open spec fn parse_tasks(s: Seq<char>) -> Option<Seq<TaskV>> {
    if s == seq!['{', '}'] {
        Some(Seq::empty())
    } else {
        match parse_lit(s, seq!['{']) {
            None => None,
            Some(s1) => match parse_task_list(s1) {
                None => None,
                Some((ts, r)) => if r == seq!['}'] {
                    Some(ts)
                } else {
                    None
                },
            },
        }
    }
}

/// The whole user document: `{}` or `{` entries `}` with nothing left over.
pub open spec fn parse_users(s: Seq<char>) -> Option<Seq<UserV>> {
    if s == seq!['{', '}'] {
        Some(Seq::empty())
    } else {
        match parse_lit(s, seq!['{']) {
            None => None,
            Some(s1) => match parse_user_list(s1) {
                None => None,
                Some((us, r)) => if r == seq!['}'] {
                    Some(us)
                } else {
                    None
                },
            },
        }
    }
}

// ---------------------------------------------------------------------------
// Lemmas: numbers round-trip
// ---------------------------------------------------------------------------

pub proof fn lemma_dec_digits_wf(n: nat)
    ensures
        dec_digits(n).len() >= 1,
        forall|i: int| 0 <= i < dec_digits(n).len() ==> is_digit(#[trigger] dec_digits(n)[i]),
        n > 0 ==> dec_digits(n)[0] != '0',
        n >= 10 ==> dec_digits(n).len() >= 2,
    decreases n,
{
    if n < 10 {
    } else {
        lemma_dec_digits_wf(n / 10);
        assert forall|i: int| 0 <= i < dec_digits(n).len() implies is_digit(
            #[trigger] dec_digits(n)[i],
        ) by {
            if i < dec_digits(n / 10).len() {
                assert(dec_digits(n)[i] == dec_digits(n / 10)[i]);
            } else {
                assert(dec_digits(n)[i] == digit_char(n % 10));
            }
        }
        assert(dec_digits(n)[0] == dec_digits(n / 10)[0]);
    }
}

pub proof fn lemma_digit_count_prefix(d: Seq<char>, rest: Seq<char>)
    requires
        forall|i: int| 0 <= i < d.len() ==> is_digit(#[trigger] d[i]),
        rest.len() == 0 || !is_digit(rest[0]),
    ensures
        digit_count(d + rest) == d.len(),
    decreases d.len(),
{
    if d.len() == 0 {
        assert(d + rest =~= rest);
    } else {
        assert((d + rest).drop_first() =~= d.drop_first() + rest);
        lemma_digit_count_prefix(d.drop_first(), rest);
        assert((d + rest)[0] == d[0]);
    }
}

pub proof fn lemma_digits_val(n: nat)
    ensures
        digits_val(dec_digits(n)) == n,
    decreases n,
{
    if n < 10 {
        assert(dec_digits(n).drop_last() =~= Seq::<char>::empty());
        assert(digits_val(Seq::<char>::empty()) == 0);
        assert(dec_digits(n).last() == digit_char(n));
        assert(digit_val(digit_char(n)) == n);
    } else {
        lemma_digits_val(n / 10);
        assert(dec_digits(n).drop_last() =~= dec_digits(n / 10));
        assert(dec_digits(n).last() == digit_char(n % 10));
        assert(digit_val(digit_char(n % 10)) == n % 10);
        assert(n == (n / 10) * 10 + n % 10);
    }
}

pub proof fn lemma_parse_nat_enc(n: nat, rest: Seq<char>)
    requires
        rest.len() == 0 || !is_digit(rest[0]),
    ensures
        parse_nat(dec_digits(n) + rest) == Some((n, rest)),
{
    lemma_dec_digits_wf(n);
    lemma_digit_count_prefix(dec_digits(n), rest);
    let s = dec_digits(n) + rest;
    let k = digit_count(s);
    assert(k == dec_digits(n).len());
    assert(s.take(k as int) =~= dec_digits(n));
    assert(s.skip(k as int) =~= rest);
    lemma_digits_val(n);
    if k > 1 {
        assert(s[0] == dec_digits(n)[0]);
        assert(n >= 10 || dec_digits(n).len() == 1);
    }
}

pub proof fn lemma_parse_u32_enc(n: u32, rest: Seq<char>)
    requires
        rest.len() == 0 || !is_digit(rest[0]),
    ensures
        parse_u32(enc_u32(n) + rest) == Some((n, rest)),
{
    lemma_parse_nat_enc(n as nat, rest);
}

pub proof fn lemma_parse_i64_enc(n: i64, rest: Seq<char>)
    requires
        rest.len() == 0 || !is_digit(rest[0]),
    ensures
        parse_i64(enc_i64(n) + rest) == Some((n, rest)),
{
    if n >= 0 {
        lemma_parse_nat_enc(n as nat, rest);
        lemma_dec_digits_wf(n as nat);
        let s = enc_i64(n) + rest;
        assert(s[0] == dec_digits(n as nat)[0]);
        assert(is_digit(s[0]));
        assert(s[0] != '-');
    } else {
        let m = (-(n as int)) as nat;
        let s = enc_i64(n) + rest;
        assert(s =~= seq!['-'] + (dec_digits(m) + rest));
        assert(s[0] == '-');
        assert(s.drop_first() =~= dec_digits(m) + rest);
        lemma_parse_nat_enc(m, rest);
        assert(1 <= m <= 0x8000_0000_0000_0000);
        assert((-(m as int)) as i64 == n);
    }
}

// ---------------------------------------------------------------------------
// Lemmas: strings round-trip
// ---------------------------------------------------------------------------

pub proof fn lemma_hex_char_val(d: nat)
    requires
        d < 16,
    ensures
        is_hex_char(hex_char(d)),
        hex_val(hex_char(d)) == d,
{
}

pub proof fn lemma_parse_str_body_esc(s: Seq<char>, rest: Seq<char>)
    ensures
        parse_str_body(esc(s) + seq!['"'] + rest) == Some((s, rest)),
    decreases s.len(),
{
    let t = esc(s) + seq!['"'] + rest;
    if s.len() == 0 {
        assert(t =~= seq!['"'] + rest);
        assert(t[0] == '"');
        assert(t.drop_first() =~= rest);
    } else {
        let c = s[0];
        let s2 = s.drop_first();
        assert(esc(s) == esc_char(c) + esc(s2));
        lemma_parse_str_body_esc(s2, rest);
        let t2 = esc(s2) + seq!['"'] + rest;
        if c == '"' || c == '\\' {
            assert(t =~= seq!['\\', c] + t2);
            assert(t[0] == '\\' && t[1] == c);
            assert(t.skip(2) =~= t2);
            assert(seq![c] + s2 =~= s);
        } else if (c as u32) < 32 {
            let hi = (c as u32 / 16) as nat;
            let lo = (c as u32 % 16) as nat;
            lemma_hex_char_val(hi);
            lemma_hex_char_val(lo);
            assert(t =~= seq!['\\', 'u', '0', '0', hex_char(hi), hex_char(lo)] + t2);
            assert(t[0] == '\\' && t[1] == 'u' && t[2] == '0' && t[3] == '0');
            assert(t[4] == hex_char(hi) && t[5] == hex_char(lo));
            assert(t.skip(6) =~= t2);
            assert(hex_val(t[4]) * 16 + hex_val(t[5]) == c as u32) by {
                assert(hi * 16 + lo == c as u32);
            }
            vstd::utf8::char_u32_cast(c, c as u32);
            assert((((hex_val(t[4]) * 16 + hex_val(t[5])) as u32) as char) == c);
            assert(seq![c] + s2 =~= s);
        } else {
            assert(t =~= seq![c] + t2);
            assert(t[0] == c);
            assert(t[0] != '"' && t[0] != '\\' && (t[0] as u32) >= 32);
            assert(t.drop_first() =~= t2);
            assert(seq![c] + s2 =~= s);
        }
    }
}

pub proof fn lemma_parse_str_enc(s: Seq<char>, rest: Seq<char>)
    ensures
        parse_str(enc_str(s) + rest) == Some((s, rest)),
{
    let t = enc_str(s) + rest;
    assert(t[0] == '"');
    assert(t.drop_first() =~= esc(s) + seq!['"'] + rest);
    lemma_parse_str_body_esc(s, rest);
}

pub proof fn lemma_parse_lit_enc(l: Seq<char>, rest: Seq<char>)
    ensures
        parse_lit(l + rest, l) == Some(rest),
{
    let s = l + rest;
    assert(s.take(l.len() as int) =~= l);
    assert(s.skip(l.len() as int) =~= rest);
}

pub proof fn lemma_parse_bool_enc(b: bool, rest: Seq<char>)
    ensures
        parse_bool(enc_bool(b) + rest) == Some((b, rest)),
{
    lemma_parse_lit_enc(enc_bool(b), rest);
    if !b {
        let s = enc_bool(false) + rest;
        assert(s[0] == 'f');
        if parse_lit(s, enc_bool(true)) is Some {
            assert(s.take(4)[0] == 't');
        }
    }
}

// ---------------------------------------------------------------------------
// Lemmas: documents round-trip
// ---------------------------------------------------------------------------

#[verifier::rlimit(100)]
pub proof fn lemma_parse_task_obj_enc(t: TaskV, rest: Seq<char>)
    ensures
        parse_task_obj(enc_task_obj(t) + rest) == Some((t, rest)),
{
    let x12 = seq!['}'] + rest;
    let x11 = enc_str(t.user_id) + x12;
    let x10 = lit_user_id() + x11;
    let x9 = enc_i64(t.created_at) + x10;
    let x8 = lit_created_at() + x9;
    let x7 = enc_bool(t.completed) + x8;
    let x6 = lit_completed() + x7;
    let x5 = enc_str(t.description) + x6;
    let x4 = lit_description() + x5;
    let x3 = enc_str(t.title) + x4;
    let x2 = lit_title() + x3;
    let x1 = enc_u32(t.id) + x2;
    let s = enc_task_obj(t) + rest;
    assert(s =~= lit_id() + x1);
    lemma_parse_lit_enc(lit_id(), x1);
    assert(x2[0] == ',');
    lemma_parse_u32_enc(t.id, x2);
    lemma_parse_lit_enc(lit_title(), x3);
    lemma_parse_str_enc(t.title, x4);
    lemma_parse_lit_enc(lit_description(), x5);
    lemma_parse_str_enc(t.description, x6);
    lemma_parse_lit_enc(lit_completed(), x7);
    lemma_parse_bool_enc(t.completed, x8);
    lemma_parse_lit_enc(lit_created_at(), x9);
    assert(x10[0] == ',');
    lemma_parse_i64_enc(t.created_at, x10);
    lemma_parse_lit_enc(lit_user_id(), x11);
    lemma_parse_str_enc(t.user_id, x12);
    lemma_parse_lit_enc(seq!['}'], rest);
}

#[verifier::rlimit(100)]
pub proof fn lemma_parse_task_entry_enc(t: TaskV, rest: Seq<char>)
    ensures
        parse_task_entry(enc_task_entry(t) + rest) == Some((t, rest)),
{
    let x3 = enc_task_obj(t) + rest;
    let x2 = seq!['"', ':'] + x3;
    let x1 = enc_u32(t.id) + x2;
    let s = enc_task_entry(t) + rest;
    assert(s =~= seq!['"'] + x1);
    lemma_parse_lit_enc(seq!['"'], x1);
    assert(x2[0] == '"');
    assert(!is_digit('"'));
    lemma_parse_u32_enc(t.id, x2);
    lemma_parse_lit_enc(seq!['"', ':'], x3);
    lemma_parse_task_obj_enc(t, rest);
}

pub proof fn lemma_parse_task_list_enc(ts: Seq<TaskV>, rest: Seq<char>)
    requires
        ts.len() > 0,
        rest.len() > 0,
        rest[0] != ',',
    ensures
        parse_task_list(enc_task_list(ts) + rest) == Some((ts, rest)),
    decreases ts.len(),
{
    if ts.len() == 1 {
        lemma_parse_task_entry_enc(ts[0], rest);
        assert(seq![ts[0]] =~= ts);
    } else {
        let tail = ts.drop_first();
        let x1 = seq![','] + (enc_task_list(tail) + rest);
        let s = enc_task_list(ts) + rest;
        assert(s =~= enc_task_entry(ts[0]) + x1);
        lemma_parse_task_entry_enc(ts[0], x1);
        assert(x1[0] == ',');
        assert(x1.drop_first() =~= enc_task_list(tail) + rest);
        lemma_parse_task_list_enc(tail, rest);
        assert(seq![ts[0]] + tail =~= ts);
    }
}

/// Round-trip for the task document: parsing an encoded collection gives the
/// collection back, every field to the letter and the timestamp to the
/// second.
pub proof fn lemma_tasks_roundtrip(ts: Seq<TaskV>)
    ensures
        parse_tasks(enc_tasks(ts)) == Some(ts),
{
    if ts.len() == 0 {
        assert(enc_tasks(ts) =~= seq!['{', '}']);
    } else {
        let s = enc_tasks(ts);
        let x1 = enc_task_list(ts) + seq!['}'];
        assert(s =~= seq!['{'] + x1);
        assert(enc_task_entry(ts[0]).len() > 0);
        assert(enc_task_list(ts).len() > 0);
        assert(s.len() > 2);
        assert(s != seq!['{', '}']);
        lemma_parse_lit_enc(seq!['{'], x1);
        lemma_parse_task_list_enc(ts, seq!['}']);
    }
}

#[verifier::rlimit(100)]
pub proof fn lemma_parse_user_obj_enc(u: UserV, rest: Seq<char>)
    ensures
        parse_user_obj(enc_user_obj(u) + rest) == Some((u, rest)),
{
    let x4 = seq!['}'] + rest;
    let x3 = enc_str(u.password) + x4;
    let x2 = lit_password() + x3;
    let x1 = enc_str(u.username) + x2;
    let s = enc_user_obj(u) + rest;
    assert(s =~= lit_username() + x1);
    lemma_parse_lit_enc(lit_username(), x1);
    lemma_parse_str_enc(u.username, x2);
    lemma_parse_lit_enc(lit_password(), x3);
    lemma_parse_str_enc(u.password, x4);
    lemma_parse_lit_enc(seq!['}'], rest);
}

#[verifier::rlimit(100)]
pub proof fn lemma_parse_user_entry_enc(u: UserV, rest: Seq<char>)
    ensures
        parse_user_entry(enc_user_entry(u) + rest) == Some((u, rest)),
{
    let x2 = enc_user_obj(u) + rest;
    let x1 = seq![':'] + x2;
    let s = enc_user_entry(u) + rest;
    assert(s =~= enc_str(u.username) + x1);
    lemma_parse_str_enc(u.username, x1);
    lemma_parse_lit_enc(seq![':'], x2);
    lemma_parse_user_obj_enc(u, rest);
}

pub proof fn lemma_parse_user_list_enc(us: Seq<UserV>, rest: Seq<char>)
    requires
        us.len() > 0,
        rest.len() > 0,
        rest[0] != ',',
    ensures
        parse_user_list(enc_user_list(us) + rest) == Some((us, rest)),
    decreases us.len(),
{
    if us.len() == 1 {
        lemma_parse_user_entry_enc(us[0], rest);
        assert(seq![us[0]] =~= us);
    } else {
        let tail = us.drop_first();
        let x1 = seq![','] + (enc_user_list(tail) + rest);
        let s = enc_user_list(us) + rest;
        assert(s =~= enc_user_entry(us[0]) + x1);
        lemma_parse_user_entry_enc(us[0], x1);
        assert(x1[0] == ',');
        assert(x1.drop_first() =~= enc_user_list(tail) + rest);
        lemma_parse_user_list_enc(tail, rest);
        assert(seq![us[0]] + tail =~= us);
    }
}

/// Round-trip for the user document: parsing an encoded collection gives the
/// collection back.
pub proof fn lemma_users_roundtrip(us: Seq<UserV>)
    ensures
        parse_users(enc_users(us)) == Some(us),
{
    if us.len() == 0 {
        assert(enc_users(us) =~= seq!['{', '}']);
    } else {
        let s = enc_users(us);
        let x1 = enc_user_list(us) + seq!['}'];
        assert(s =~= seq!['{'] + x1);
        assert(enc_user_entry(us[0]).len() > 0);
        assert(enc_user_list(us).len() > 0);
        assert(s.len() > 2);
        assert(s != seq!['{', '}']);
        lemma_parse_lit_enc(seq!['{'], x1);
        lemma_parse_user_list_enc(us, seq!['}']);
    }
}


// ---------------------------------------------------------------------------
// Executable encoder
// ---------------------------------------------------------------------------

/// Relies on `String`'s `FromIterator<char>` impl: collecting characters
/// yields the string of exactly those characters in order.
#[verifier::external_body]
fn chars_to_string(v: &Vec<char>) -> (s: String)
    ensures
        s@ == v@,
{
    v.iter().collect()
}

fn digit_char_of(d: u64) -> (c: char)
    requires
        d < 10,
    ensures
        c == digit_char(d as nat),
{
    match d {
        0 => '0',
        1 => '1',
        2 => '2',
        3 => '3',
        4 => '4',
        5 => '5',
        6 => '6',
        7 => '7',
        8 => '8',
        _ => '9',
    }
}

fn hex_char_of(d: u32) -> (c: char)
    requires
        d < 16,
    ensures
        c == hex_char(d as nat),
{
    match d {
        0 => '0',
        1 => '1',
        2 => '2',
        3 => '3',
        4 => '4',
        5 => '5',
        6 => '6',
        7 => '7',
        8 => '8',
        9 => '9',
        10 => 'a',
        11 => 'b',
        12 => 'c',
        13 => 'd',
        14 => 'e',
        _ => 'f',
    }
}

fn push_u64(out: &mut Vec<char>, n: u64)
    ensures
        final(out)@ == old(out)@ + dec_digits(n as nat),
    decreases n,
{
    if n < 10 {
        out.push(digit_char_of(n));
        proof {
            assert(out@ =~= old(out)@ + dec_digits(n as nat));
        }
    } else {
        push_u64(out, n / 10);
        out.push(digit_char_of(n % 10));
        proof {
            assert(out@ =~= old(out)@ + dec_digits(n as nat));
        }
    }
}

fn push_i64(out: &mut Vec<char>, n: i64)
    ensures
        final(out)@ == old(out)@ + enc_i64(n),
{
    if n >= 0 {
        push_u64(out, n as u64);
    } else {
        out.push('-');
        let m: u64 = (-(n as i128)) as u64;
        push_u64(out, m);
        proof {
            assert(m as nat == (-(n as int)) as nat);
            assert(out@ =~= old(out)@ + enc_i64(n));
        }
    }
}

/// `esc` distributes over concatenation.
proof fn lemma_esc_concat(a: Seq<char>, b: Seq<char>)
    ensures
        esc(a + b) == esc(a) + esc(b),
    decreases a.len(),
{
    if a.len() == 0 {
        assert(a + b =~= b);
        assert(esc(a) + esc(b) =~= esc(b));
    } else {
        assert((a + b).drop_first() =~= a.drop_first() + b);
        assert((a + b)[0] == a[0]);
        lemma_esc_concat(a.drop_first(), b);
        assert(esc(a + b) =~= esc(a) + esc(b));
    }
}

fn push_char_esc(out: &mut Vec<char>, c: char)
    ensures
        final(out)@ == old(out)@ + esc_char(c),
{
    if c == '"' {
        out.push('\\');
        out.push('"');
        proof {
            assert(out@ =~= old(out)@ + esc_char(c));
        }
    } else if c == '\\' {
        out.push('\\');
        out.push('\\');
        proof {
            assert(out@ =~= old(out)@ + esc_char(c));
        }
    } else if (c as u32) < 32 {
        out.push('\\');
        out.push('u');
        out.push('0');
        out.push('0');
        out.push(hex_char_of((c as u32) / 16));
        out.push(hex_char_of((c as u32) % 16));
        proof {
            assert(out@ =~= old(out)@ + esc_char(c));
        }
    } else {
        out.push(c);
        proof {
            assert(out@ =~= old(out)@ + esc_char(c));
        }
    }
}

fn push_str_enc(out: &mut Vec<char>, s: &String)
    ensures
        final(out)@ == old(out)@ + enc_str(s@),
{
    out.push('"');
    let n = s.as_str().unicode_len();
    let mut i: usize = 0;
    while i < n
        invariant
            n == s@.len(),
            i <= n,
            out@ == old(out)@ + seq!['"'] + esc(s@.take(i as int)),
        decreases n - i,
    {
        let c = s.as_str().get_char(i);
        push_char_esc(out, c);
        i += 1;
        proof {
            assert(s@.take(i as int) =~= s@.take(i - 1) + seq![c]);
            lemma_esc_concat(s@.take(i - 1), seq![c]);
            assert(seq![c].drop_first() =~= Seq::<char>::empty());
            assert(esc(Seq::<char>::empty()) == Seq::<char>::empty());
            assert(esc(seq![c]) == esc_char(c) + esc(seq![c].drop_first()));
            assert(esc(seq![c]) =~= esc_char(c));
            assert(out@ =~= old(out)@ + seq!['"'] + esc(s@.take(i as int)));
        }
    }
    out.push('"');
    proof {
        assert(s@.take(n as int) =~= s@);
        assert(out@ =~= old(out)@ + enc_str(s@));
    }
}

fn push_lit_id(out: &mut Vec<char>)
    ensures
        final(out)@ == old(out)@ + lit_id(),
{
    out.push('{');
    out.push('"');
    out.push('i');
    out.push('d');
    out.push('"');
    out.push(':');
    proof {
        assert(out@ =~= old(out)@ + lit_id());
    }
}

fn push_lit_title(out: &mut Vec<char>)
    ensures
        final(out)@ == old(out)@ + lit_title(),
{
    out.push(',');
    out.push('"');
    out.push('t');
    out.push('i');
    out.push('t');
    out.push('l');
    out.push('e');
    out.push('"');
    out.push(':');
    proof {
        assert(out@ =~= old(out)@ + lit_title());
    }
}

fn push_lit_description(out: &mut Vec<char>)
    ensures
        final(out)@ == old(out)@ + lit_description(),
{
    out.push(',');
    out.push('"');
    out.push('d');
    out.push('e');
    out.push('s');
    out.push('c');
    out.push('r');
    out.push('i');
    out.push('p');
    out.push('t');
    out.push('i');
    out.push('o');
    out.push('n');
    out.push('"');
    out.push(':');
    proof {
        assert(out@ =~= old(out)@ + lit_description());
    }
}

fn push_lit_completed(out: &mut Vec<char>)
    ensures
        final(out)@ == old(out)@ + lit_completed(),
{
    out.push(',');
    out.push('"');
    out.push('c');
    out.push('o');
    out.push('m');
    out.push('p');
    out.push('l');
    out.push('e');
    out.push('t');
    out.push('e');
    out.push('d');
    out.push('"');
    out.push(':');
    proof {
        assert(out@ =~= old(out)@ + lit_completed());
    }
}

fn push_lit_created_at(out: &mut Vec<char>)
    ensures
        final(out)@ == old(out)@ + lit_created_at(),
{
    out.push(',');
    out.push('"');
    out.push('c');
    out.push('r');
    out.push('e');
    out.push('a');
    out.push('t');
    out.push('e');
    out.push('d');
    out.push('_');
    out.push('a');
    out.push('t');
    out.push('"');
    out.push(':');
    proof {
        assert(out@ =~= old(out)@ + lit_created_at());
    }
}

fn push_lit_user_id(out: &mut Vec<char>)
    ensures
        final(out)@ == old(out)@ + lit_user_id(),
{
    out.push(',');
    out.push('"');
    out.push('u');
    out.push('s');
    out.push('e');
    out.push('r');
    out.push('_');
    out.push('i');
    out.push('d');
    out.push('"');
    out.push(':');
    proof {
        assert(out@ =~= old(out)@ + lit_user_id());
    }
}

fn push_lit_username(out: &mut Vec<char>)
    ensures
        final(out)@ == old(out)@ + lit_username(),
{
    out.push('{');
    out.push('"');
    out.push('u');
    out.push('s');
    out.push('e');
    out.push('r');
    out.push('n');
    out.push('a');
    out.push('m');
    out.push('e');
    out.push('"');
    out.push(':');
    proof {
        assert(out@ =~= old(out)@ + lit_username());
    }
}

fn push_lit_password(out: &mut Vec<char>)
    ensures
        final(out)@ == old(out)@ + lit_password(),
{
    out.push(',');
    out.push('"');
    out.push('p');
    out.push('a');
    out.push('s');
    out.push('s');
    out.push('w');
    out.push('o');
    out.push('r');
    out.push('d');
    out.push('"');
    out.push(':');
    proof {
        assert(out@ =~= old(out)@ + lit_password());
    }
}

fn push_bool(out: &mut Vec<char>, b: bool)
    ensures
        final(out)@ == old(out)@ + enc_bool(b),
{
    if b {
        out.push('t');
        out.push('r');
        out.push('u');
        out.push('e');
    } else {
        out.push('f');
        out.push('a');
        out.push('l');
        out.push('s');
        out.push('e');
    }
    proof {
        assert(out@ =~= old(out)@ + enc_bool(b));
    }
}

#[verifier::rlimit(100)]
fn push_task_obj(out: &mut Vec<char>, t: &Task)
    ensures
        final(out)@ == old(out)@ + enc_task_obj(t@),
{
    push_lit_id(out);
    push_u64(out, t.id as u64);
    push_lit_title(out);
    push_str_enc(out, &t.title);
    push_lit_description(out);
    push_str_enc(out, &t.description);
    push_lit_completed(out);
    push_bool(out, t.completed);
    push_lit_created_at(out);
    push_i64(out, t.created_at);
    push_lit_user_id(out);
    push_str_enc(out, &t.user_id);
    out.push('}');
    proof {
        assert(out@ =~= old(out)@ + enc_task_obj(t@));
    }
}

fn push_task_entry(out: &mut Vec<char>, t: &Task)
    ensures
        final(out)@ == old(out)@ + enc_task_entry(t@),
{
    out.push('"');
    push_u64(out, t.id as u64);
    out.push('"');
    out.push(':');
    proof {
        assert(out@ =~= old(out)@ + seq!['"'] + enc_u32(t.id) + seq!['"', ':']);
    }
    push_task_obj(out, t);
    proof {
        assert(out@ =~= old(out)@ + enc_task_entry(t@));
    }
}

/// Appending one more record extends the encoded entry list by a comma and
/// the record's entry.
proof fn lemma_enc_task_list_snoc(ts: Seq<TaskV>, t: TaskV)
    requires
        ts.len() > 0,
    ensures
        enc_task_list(ts.push(t)) == enc_task_list(ts) + seq![','] + enc_task_entry(t),
    decreases ts.len(),
{
    let e = ts.push(t);
    assert(e[0] == ts[0]);
    assert(e.len() == ts.len() + 1);
    if ts.len() == 1 {
        assert(e.drop_first() =~= seq![t]);
        assert(enc_task_list(seq![t]) == enc_task_entry(t));
        assert(enc_task_list(e) == enc_task_entry(e[0]) + seq![','] + enc_task_list(
            e.drop_first(),
        ));
        assert(enc_task_list(ts) == enc_task_entry(ts[0]));
        assert(enc_task_list(e) =~= enc_task_list(ts) + seq![','] + enc_task_entry(t));
    } else {
        assert(e.drop_first() =~= ts.drop_first().push(t));
        lemma_enc_task_list_snoc(ts.drop_first(), t);
        assert(enc_task_list(e) == enc_task_entry(e[0]) + seq![','] + enc_task_list(
            e.drop_first(),
        ));
        assert(enc_task_list(ts) == enc_task_entry(ts[0]) + seq![','] + enc_task_list(
            ts.drop_first(),
        ));
        assert(enc_task_list(e) =~= enc_task_list(ts) + seq![','] + enc_task_entry(t));
    }
}

/// Renders the task collection as its persisted JSON document.
pub fn encode_tasks(tasks: &Vec<Task>) -> (s: String)
    ensures
        s@ == enc_tasks(crate::store::task_views(tasks@)),
{
    let mut out: Vec<char> = Vec::new();
    out.push('{');
    let n = tasks.len();
    let mut i: usize = 0;
    while i < n
        invariant
            n == tasks.len(),
            i <= n,
            out@ == seq!['{'] + enc_task_list(crate::store::task_views(tasks@).take(i as int)),
        decreases n - i,
    {
        let ghost prefix = crate::store::task_views(tasks@).take(i as int);
        if i > 0 {
            out.push(',');
        }
        push_task_entry(&mut out, &tasks[i]);
        i += 1;
        proof {
            let now_prefix = crate::store::task_views(tasks@).take(i as int);
            assert(now_prefix =~= prefix.push(tasks@[i - 1]@));
            if i == 1 {
                assert(enc_task_list(now_prefix) == enc_task_entry(tasks@[0]@));
                assert(out@ =~= seq!['{'] + enc_task_list(now_prefix));
            } else {
                lemma_enc_task_list_snoc(prefix, tasks@[i - 1]@);
                assert(out@ =~= seq!['{'] + enc_task_list(now_prefix));
            }
        }
    }
    out.push('}');
    proof {
        assert(crate::store::task_views(tasks@).take(n as int) =~= crate::store::task_views(
            tasks@,
        ));
        assert(out@ =~= enc_tasks(crate::store::task_views(tasks@)));
    }
    chars_to_string(&out)
}

#[verifier::rlimit(100)]
fn push_user_obj(out: &mut Vec<char>, u: &User)
    ensures
        final(out)@ == old(out)@ + enc_user_obj(u@),
{
    push_lit_username(out);
    push_str_enc(out, &u.username);
    push_lit_password(out);
    push_str_enc(out, &u.password);
    out.push('}');
    proof {
        assert(out@ =~= old(out)@ + enc_user_obj(u@));
    }
}

fn push_user_entry(out: &mut Vec<char>, u: &User)
    ensures
        final(out)@ == old(out)@ + enc_user_entry(u@),
{
    push_str_enc(out, &u.username);
    out.push(':');
    proof {
        assert(out@ =~= old(out)@ + enc_str(u.username@) + seq![':']);
    }
    push_user_obj(out, u);
    proof {
        assert(out@ =~= old(out)@ + enc_user_entry(u@));
    }
}

/// Appending one more record extends the encoded entry list by a comma and
/// the record's entry.
proof fn lemma_enc_user_list_snoc(us: Seq<UserV>, u: UserV)
    requires
        us.len() > 0,
    ensures
        enc_user_list(us.push(u)) == enc_user_list(us) + seq![','] + enc_user_entry(u),
    decreases us.len(),
{
    let e = us.push(u);
    assert(e[0] == us[0]);
    assert(e.len() == us.len() + 1);
    if us.len() == 1 {
        assert(e.drop_first() =~= seq![u]);
        assert(enc_user_list(seq![u]) == enc_user_entry(u));
        assert(enc_user_list(e) == enc_user_entry(e[0]) + seq![','] + enc_user_list(
            e.drop_first(),
        ));
        assert(enc_user_list(us) == enc_user_entry(us[0]));
        assert(enc_user_list(e) =~= enc_user_list(us) + seq![','] + enc_user_entry(u));
    } else {
        assert(e.drop_first() =~= us.drop_first().push(u));
        lemma_enc_user_list_snoc(us.drop_first(), u);
        assert(enc_user_list(e) == enc_user_entry(e[0]) + seq![','] + enc_user_list(
            e.drop_first(),
        ));
        assert(enc_user_list(us) == enc_user_entry(us[0]) + seq![','] + enc_user_list(
            us.drop_first(),
        ));
        assert(enc_user_list(e) =~= enc_user_list(us) + seq![','] + enc_user_entry(u));
    }
}

/// Renders the user collection as its persisted JSON document.
pub fn encode_users(users: &Vec<User>) -> (s: String)
    ensures
        s@ == enc_users(crate::store::user_views(users@)),
{
    let mut out: Vec<char> = Vec::new();
    out.push('{');
    let n = users.len();
    let mut i: usize = 0;
    while i < n
        invariant
            n == users.len(),
            i <= n,
            out@ == seq!['{'] + enc_user_list(crate::store::user_views(users@).take(i as int)),
        decreases n - i,
    {
        let ghost prefix = crate::store::user_views(users@).take(i as int);
        if i > 0 {
            out.push(',');
        }
        push_user_entry(&mut out, &users[i]);
        i += 1;
        proof {
            let now_prefix = crate::store::user_views(users@).take(i as int);
            assert(now_prefix =~= prefix.push(users@[i - 1]@));
            if i == 1 {
                assert(enc_user_list(now_prefix) == enc_user_entry(users@[0]@));
                assert(out@ =~= seq!['{'] + enc_user_list(now_prefix));
            } else {
                lemma_enc_user_list_snoc(prefix, users@[i - 1]@);
                assert(out@ =~= seq!['{'] + enc_user_list(now_prefix));
            }
        }
    }
    out.push('}');
    proof {
        assert(crate::store::user_views(users@).take(n as int) =~= crate::store::user_views(
            users@,
        ));
        assert(out@ =~= enc_users(crate::store::user_views(users@)));
    }
    chars_to_string(&out)
}


// ---------------------------------------------------------------------------
// Executable parser
// ---------------------------------------------------------------------------

fn is_digit_exec(c: char) -> (b: bool)
    ensures
        b == is_digit(c),
{
    c == '0' || c == '1' || c == '2' || c == '3' || c == '4' || c == '5' || c == '6' || c == '7'
        || c == '8' || c == '9'
}

fn digit_val_exec(c: char) -> (d: u64)
    requires
        is_digit(c),
    ensures
        d as nat == digit_val(c),
        d < 10,
{
    match c {
        '0' => 0,
        '1' => 1,
        '2' => 2,
        '3' => 3,
        '4' => 4,
        '5' => 5,
        '6' => 6,
        '7' => 7,
        '8' => 8,
        _ => 9,
    }
}

fn is_hex_exec(c: char) -> (b: bool)
    ensures
        b == is_hex_char(c),
{
    is_digit_exec(c) || c == 'a' || c == 'b' || c == 'c' || c == 'd' || c == 'e' || c == 'f'
}

fn hex_val_exec(c: char) -> (d: u32)
    requires
        is_hex_char(c),
    ensures
        d as nat == hex_val(c),
        d < 16,
{
    match c {
        '0' => 0,
        '1' => 1,
        '2' => 2,
        '3' => 3,
        '4' => 4,
        '5' => 5,
        '6' => 6,
        '7' => 7,
        '8' => 8,
        '9' => 9,
        'a' => 10,
        'b' => 11,
        'c' => 12,
        'd' => 13,
        'e' => 14,
        _ => 15,
    }
}

/// Consumes the literal `l` at `pos`, giving the position after it.
fn p_lit(v: &Vec<char>, pos: usize, l: &str) -> (r: Option<usize>)
    requires
        pos <= v.len(),
    ensures
        r matches Some(p2) ==> {
            &&& pos <= p2 <= v.len()
            &&& p2 - pos == l@.len()
            &&& parse_lit(v@.skip(pos as int), l@) == Some(v@.skip(p2 as int))
        },
        r is None ==> parse_lit(v@.skip(pos as int), l@) is None,
{
    let n = l.unicode_len();
    if v.len() - pos < n {
        return None;
    }
    let mut i: usize = 0;
    while i < n
        invariant
            n == l@.len(),
            pos + n <= v.len(),
            i <= n,
            forall|m: int| 0 <= m < i ==> v@[pos + m] == l@[m],
        decreases n - i,
    {
        if v[pos + i] != l.get_char(i) {
            proof {
                assert(v@.skip(pos as int).take(l@.len() as int)[i as int] == v@[pos + i]);
                assert(v@.skip(pos as int).take(l@.len() as int) != l@);
            }
            return None;
        }
        i += 1;
    }
    proof {
        assert(v@.skip(pos as int).take(l@.len() as int) =~= l@);
        assert(v@.skip(pos as int).skip(l@.len() as int) =~= v@.skip((pos + n) as int));
    }
    Some(pos + n)
}

/// Parses an unsigned decimal number, failing when its value is over `cap`.
fn p_nat_capped(v: &Vec<char>, pos: usize, cap: u64) -> (r: Option<(u64, usize)>)
    requires
        pos <= v.len(),
    ensures
        r matches Some(p) ==> {
            &&& pos < p.1 <= v.len()
            &&& p.0 <= cap
            &&& parse_nat(v@.skip(pos as int)) == Some((p.0 as nat, v@.skip(p.1 as int)))
        },
        r is None ==> (parse_nat(v@.skip(pos as int)) is None || (parse_nat(
            v@.skip(pos as int),
        ) matches Some(q) && q.0 > cap)),
{
    let ghost s = v@.skip(pos as int);
    let mut end: usize = pos;
    while end < v.len() && is_digit_exec(v[end])
        invariant
            pos <= end <= v.len(),
            forall|m: int| pos <= m < end ==> is_digit(v@[m]),
        decreases v.len() - end,
    {
        end += 1;
    }
    proof {
        assert(s =~= v@.subrange(pos as int, end as int) + v@.skip(end as int));
        assert forall|m: int| 0 <= m < end - pos implies is_digit(
            #[trigger] v@.subrange(pos as int, end as int)[m],
        ) by {
            assert(v@.subrange(pos as int, end as int)[m] == v@[pos + m]);
        }
        if end < v.len() {
            assert(v@.skip(end as int)[0] == v@[end as int]);
            assert(!is_digit(v@.skip(end as int)[0]));
        }
        lemma_digit_count_prefix(v@.subrange(pos as int, end as int), v@.skip(end as int));
        assert(digit_count(s) == end - pos);
    }
    if end == pos {
        return None;
    }
    if v[pos] == '0' && end - pos > 1 {
        proof {
            assert(s[0] == '0');
        }
        return None;
    }
    let mut acc: u64 = 0;
    let mut too_big = false;
    let mut i: usize = pos;
    while i < end
        invariant
            pos <= i <= end <= v.len(),
            forall|m: int| pos <= m < end ==> is_digit(v@[m]),
            !too_big ==> acc as nat == digits_val(v@.subrange(pos as int, i as int)) && acc
                <= cap,
            too_big ==> digits_val(v@.subrange(pos as int, i as int)) > cap,
        decreases end - i,
    {
        let d = digit_val_exec(v[i]);
        proof {
            assert(v@.subrange(pos as int, i + 1).drop_last() =~= v@.subrange(
                pos as int,
                i as int,
            ));
            assert(v@.subrange(pos as int, i + 1).last() == v@[i as int]);
            assert(digits_val(v@.subrange(pos as int, i + 1)) == digits_val(
                v@.subrange(pos as int, i as int),
            ) * 10 + digit_val(v@[i as int]));
        }
        if !too_big {
            let t: u128 = acc as u128 * 10 + d as u128;
            if t > cap as u128 {
                too_big = true;
            } else {
                acc = t as u64;
            }
        } else {
            proof {
                let dv = digits_val(v@.subrange(pos as int, i as int));
                assert(dv * 10 >= dv) by (nonlinear_arith)
                    requires
                        dv >= 0,
                ;
            }
        }
        i += 1;
    }
    if too_big {
        proof {
            assert(s.take((end - pos) as int) =~= v@.subrange(pos as int, end as int));
        }
        return None;
    }
    proof {
        assert(s.take((end - pos) as int) =~= v@.subrange(pos as int, end as int));
        assert(s.skip((end - pos) as int) =~= v@.skip(end as int));
    }
    Some((acc, end))
}

fn p_u32(v: &Vec<char>, pos: usize) -> (r: Option<(u32, usize)>)
    requires
        pos <= v.len(),
    ensures
        r matches Some(p) ==> {
            &&& pos < p.1 <= v.len()
            &&& parse_u32(v@.skip(pos as int)) == Some((p.0, v@.skip(p.1 as int)))
        },
        r is None ==> parse_u32(v@.skip(pos as int)) is None,
{
    match p_nat_capped(v, pos, 0xFFFF_FFFF) {
        Some((x, p2)) => Some((x as u32, p2)),
        None => None,
    }
}

fn p_i64(v: &Vec<char>, pos: usize) -> (r: Option<(i64, usize)>)
    requires
        pos <= v.len(),
    ensures
        r matches Some(p) ==> {
            &&& pos < p.1 <= v.len()
            &&& parse_i64(v@.skip(pos as int)) == Some((p.0, v@.skip(p.1 as int)))
        },
        r is None ==> parse_i64(v@.skip(pos as int)) is None,
{
    let ghost s = v@.skip(pos as int);
    if pos < v.len() && v[pos] == '-' {
        proof {
            assert(s[0] == '-');
            assert(s.drop_first() =~= v@.skip(pos + 1));
        }
        match p_nat_capped(v, pos + 1, 0x8000_0000_0000_0000) {
            Some((x, p2)) => {
                if x == 0 {
                    None
                } else {
                    let val: i64 = (-(x as i128)) as i64;
                    proof {
                        assert(val == (-(x as int)) as i64);
                    }
                    Some((val, p2))
                }
            },
            None => None,
        }
    } else {
        proof {
            if s.len() > 0 {
                assert(s[0] == v@[pos as int]);
            }
        }
        match p_nat_capped(v, pos, 0x7FFF_FFFF_FFFF_FFFF) {
            Some((x, p2)) => Some((x as i64, p2)),
            None => None,
        }
    }
}

/// Parses the rest of a JSON string after its opening quote, returning the
/// unescaped characters.
fn p_str_body(v: &Vec<char>, pos: usize) -> (r: Option<(Vec<char>, usize)>)
    requires
        pos <= v.len(),
    ensures
        r matches Some(p) ==> {
            &&& pos < p.1 <= v.len()
            &&& parse_str_body(v@.skip(pos as int)) == Some((p.0@, v@.skip(p.1 as int)))
        },
        r is None ==> parse_str_body(v@.skip(pos as int)) is None,
    decreases v.len() - pos,
{
    let ghost s = v@.skip(pos as int);
    if pos == v.len() {
        return None;
    }
    let c = v[pos];
    proof {
        assert(s[0] == c);
    }
    if c == '"' {
        let w: Vec<char> = Vec::new();
        proof {
            assert(s.drop_first() =~= v@.skip(pos + 1));
            assert(w@ =~= Seq::<char>::empty());
        }
        return Some((w, pos + 1));
    }
    if c == '\\' {
        if v.len() - pos >= 2 && (v[pos + 1] == '"' || v[pos + 1] == '\\') {
            let e = v[pos + 1];
            proof {
                assert(s.len() >= 2);
                assert(s[1] == e);
                assert(s.skip(2) =~= v@.skip(pos + 2));
            }
            match p_str_body(v, pos + 2) {
                Some((mut w, p2)) => {
                    let ghost pw = w@;
                    w.insert(0, e);
                    proof {
                        assert(w@ =~= seq![s[1]] + pw);
                    }
                    Some((w, p2))
                },
                None => None,
            }
        } else if v.len() - pos >= 6 && v[pos + 1] == 'u' && v[pos + 2] == '0' && v[pos + 3]
            == '0' && is_hex_exec(v[pos + 4]) && is_hex_exec(v[pos + 5]) && hex_val_exec(
            v[pos + 4],
        ) * 16 + hex_val_exec(v[pos + 5]) < 32 {
            let code: u32 = hex_val_exec(v[pos + 4]) * 16 + hex_val_exec(v[pos + 5]);
            let c2: char = (code as u8) as char;
            proof {
                assert(s.len() >= 6);
                assert(s[1] == v@[pos + 1] && s[2] == v@[pos + 2] && s[3] == v@[pos + 3]);
                assert(s[4] == v@[pos + 4] && s[5] == v@[pos + 5]);
                assert(code as nat == hex_val(s[4]) * 16 + hex_val(s[5]));
                assert(c2 == (((hex_val(s[4]) * 16 + hex_val(s[5])) as u32) as char));
                assert(s.skip(6) =~= v@.skip(pos + 6));
            }
            match p_str_body(v, pos + 6) {
                Some((mut w, p2)) => {
                    let ghost pw = w@;
                    w.insert(0, c2);
                    proof {
                        assert(w@ =~= seq![c2] + pw);
                    }
                    Some((w, p2))
                },
                None => None,
            }
        } else {
            proof {
                if s.len() >= 2 {
                    assert(s[1] == v@[pos + 1]);
                }
                if s.len() >= 6 {
                    assert(s[2] == v@[pos + 2] && s[3] == v@[pos + 3]);
                    assert(s[4] == v@[pos + 4] && s[5] == v@[pos + 5]);
                }
            }
            None
        }
    } else {
        let c_u = c as u32;
        if c_u >= 32 {
            proof {
                assert(s.drop_first() =~= v@.skip(pos + 1));
            }
            match p_str_body(v, pos + 1) {
                Some((mut w, p2)) => {
                    let ghost pw = w@;
                    w.insert(0, c);
                    proof {
                        assert(w@ =~= seq![s[0]] + pw);
                    }
                    Some((w, p2))
                },
                None => None,
            }
        } else {
            None
        }
    }
}

fn p_str(v: &Vec<char>, pos: usize) -> (r: Option<(Vec<char>, usize)>)
    requires
        pos <= v.len(),
    ensures
        r matches Some(p) ==> {
            &&& pos < p.1 <= v.len()
            &&& parse_str(v@.skip(pos as int)) == Some((p.0@, v@.skip(p.1 as int)))
        },
        r is None ==> parse_str(v@.skip(pos as int)) is None,
{
    let ghost s = v@.skip(pos as int);
    if pos < v.len() && v[pos] == '"' {
        proof {
            assert(s[0] == '"');
            assert(s.drop_first() =~= v@.skip(pos + 1));
        }
        p_str_body(v, pos + 1)
    } else {
        proof {
            if s.len() > 0 {
                assert(s[0] == v@[pos as int]);
            }
        }
        None
    }
}

fn p_bool(v: &Vec<char>, pos: usize) -> (r: Option<(bool, usize)>)
    requires
        pos <= v.len(),
    ensures
        r matches Some(p) ==> {
            &&& pos < p.1 <= v.len()
            &&& parse_bool(v@.skip(pos as int)) == Some((p.0, v@.skip(p.1 as int)))
        },
        r is None ==> parse_bool(v@.skip(pos as int)) is None,
{
    proof {
        reveal_strlit("true");
        reveal_strlit("false");
        assert("true"@ =~= enc_bool(true));
        assert("false"@ =~= enc_bool(false));
    }
    match p_lit(v, pos, "true") {
        Some(p2) => Some((true, p2)),
        None => match p_lit(v, pos, "false") {
            Some(p2) => Some((false, p2)),
            None => None,
        },
    }
}

#[verifier::rlimit(100)]
fn p_task_obj(v: &Vec<char>, pos: usize) -> (r: Option<(Task, usize)>)
    requires
        pos <= v.len(),
    ensures
        r matches Some(p) ==> {
            &&& pos < p.1 <= v.len()
            &&& parse_task_obj(v@.skip(pos as int)) == Some((p.0@, v@.skip(p.1 as int)))
        },
        r is None ==> parse_task_obj(v@.skip(pos as int)) is None,
{
    proof {
        reveal_strlit("{\"id\":");
        reveal_strlit(",\"title\":");
        reveal_strlit(",\"description\":");
        reveal_strlit(",\"completed\":");
        reveal_strlit(",\"created_at\":");
        reveal_strlit(",\"user_id\":");
        reveal_strlit("}");
        assert("{\"id\":"@ =~= lit_id());
        assert(",\"title\":"@ =~= lit_title());
        assert(",\"description\":"@ =~= lit_description());
        assert(",\"completed\":"@ =~= lit_completed());
        assert(",\"created_at\":"@ =~= lit_created_at());
        assert(",\"user_id\":"@ =~= lit_user_id());
        assert("}"@ =~= seq!['}']);
    }
    let p1 = match p_lit(v, pos, "{\"id\":") {
        Some(p) => p,
        None => {
            return None;
        },
    };
    let (id, p2) = match p_u32(v, p1) {
        Some(x) => x,
        None => {
            return None;
        },
    };
    let p3 = match p_lit(v, p2, ",\"title\":") {
        Some(p) => p,
        None => {
            return None;
        },
    };
    let (title_chars, p4) = match p_str(v, p3) {
        Some(x) => x,
        None => {
            return None;
        },
    };
    let p5 = match p_lit(v, p4, ",\"description\":") {
        Some(p) => p,
        None => {
            return None;
        },
    };
    let (desc_chars, p6) = match p_str(v, p5) {
        Some(x) => x,
        None => {
            return None;
        },
    };
    let p7 = match p_lit(v, p6, ",\"completed\":") {
        Some(p) => p,
        None => {
            return None;
        },
    };
    let (completed, p8) = match p_bool(v, p7) {
        Some(x) => x,
        None => {
            return None;
        },
    };
    let p9 = match p_lit(v, p8, ",\"created_at\":") {
        Some(p) => p,
        None => {
            return None;
        },
    };
    let (created_at, p10) = match p_i64(v, p9) {
        Some(x) => x,
        None => {
            return None;
        },
    };
    let p11 = match p_lit(v, p10, ",\"user_id\":") {
        Some(p) => p,
        None => {
            return None;
        },
    };
    let (user_chars, p12) = match p_str(v, p11) {
        Some(x) => x,
        None => {
            return None;
        },
    };
    let p13 = match p_lit(v, p12, "}") {
        Some(p) => p,
        None => {
            return None;
        },
    };
    let task = Task {
        id,
        title: chars_to_string(&title_chars),
        description: chars_to_string(&desc_chars),
        completed,
        created_at,
        user_id: chars_to_string(&user_chars),
    };
    Some((task, p13))
}

fn p_task_entry(v: &Vec<char>, pos: usize) -> (r: Option<(Task, usize)>)
    requires
        pos <= v.len(),
    ensures
        r matches Some(p) ==> {
            &&& pos < p.1 <= v.len()
            &&& parse_task_entry(v@.skip(pos as int)) == Some((p.0@, v@.skip(p.1 as int)))
        },
        r is None ==> parse_task_entry(v@.skip(pos as int)) is None,
{
    proof {
        reveal_strlit("\"");
        reveal_strlit("\":");
        assert("\""@ =~= seq!['"']);
        assert("\":"@ =~= seq!['"', ':']);
    }
    let p1 = match p_lit(v, pos, "\"") {
        Some(p) => p,
        None => {
            return None;
        },
    };
    let (key, p2) = match p_u32(v, p1) {
        Some(x) => x,
        None => {
            return None;
        },
    };
    let p3 = match p_lit(v, p2, "\":") {
        Some(p) => p,
        None => {
            return None;
        },
    };
    let (t, p4) = match p_task_obj(v, p3) {
        Some(x) => x,
        None => {
            return None;
        },
    };
    if t.id == key {
        Some((t, p4))
    } else {
        None
    }
}

fn p_task_list(v: &Vec<char>, pos: usize) -> (r: Option<(Vec<Task>, usize)>)
    requires
        pos <= v.len(),
    ensures
        r matches Some(p) ==> {
            &&& pos < p.1 <= v.len()
            &&& parse_task_list(v@.skip(pos as int)) == Some(
                (crate::store::task_views(p.0@), v@.skip(p.1 as int)),
            )
        },
        r is None ==> parse_task_list(v@.skip(pos as int)) is None,
    decreases v.len() - pos,
{
    let (t, p1) = match p_task_entry(v, pos) {
        Some(x) => x,
        None => {
            return None;
        },
    };
    if p1 < v.len() && v[p1] == ',' {
        proof {
            assert(v@.skip(p1 as int)[0] == ',');
            assert(v@.skip(p1 as int).drop_first() =~= v@.skip(p1 + 1));
        }
        match p_task_list(v, p1 + 1) {
            Some((mut ts, p2)) => {
                let ghost pts = ts@;
                ts.insert(0, t);
                proof {
                    assert(crate::store::task_views(ts@) =~= seq![t@] + crate::store::task_views(
                        pts,
                    ));
                }
                Some((ts, p2))
            },
            None => None,
        }
    } else {
        proof {
            if p1 < v.len() {
                assert(v@.skip(p1 as int)[0] == v@[p1 as int]);
            }
        }
        let mut ts: Vec<Task> = Vec::new();
        ts.push(t);
        proof {
            assert(crate::store::task_views(ts@) =~= seq![t@]);
        }
        Some((ts, p1))
    }
}

/// Parses the persisted task document. A document that is not exactly the
/// canonical rendering of some collection is rejected as `CorruptState`.
#[verifier::rlimit(100)]
pub fn decode_tasks(s: &str) -> (r: Result<Vec<Task>, crate::store::Error>)
    ensures
        r matches Ok(ts) ==> parse_tasks(s@) == Some(crate::store::task_views(ts@)),
        r matches Err(e) ==> {
            &&& e == crate::store::Error::CorruptState
            &&& parse_tasks(s@) is None
        },
{
    let n = s.unicode_len();
    let mut v: Vec<char> = Vec::new();
    let mut i: usize = 0;
    while i < n
        invariant
            n == s@.len(),
            i <= n,
            v@ == s@.take(i as int),
        decreases n - i,
    {
        v.push(s.get_char(i));
        i += 1;
        proof {
            assert(s@.take(i as int) =~= s@.take(i - 1).push(s@[i - 1]));
        }
    }
    proof {
        assert(s@.take(n as int) =~= s@);
        assert(v@ == s@);
    }
    if v.len() == 2 && v[0] == '{' && v[1] == '}' {
        proof {
            assert(s@ =~= seq!['{', '}']);
            assert(crate::store::task_views(Seq::<Task>::empty()) =~= Seq::<TaskV>::empty());
        }
        let ts: Vec<Task> = Vec::new();
        proof {
            assert(crate::store::task_views(ts@) =~= Seq::<TaskV>::empty());
        }
        return Ok(ts);
    }
    proof {
        assert(s@ != seq!['{', '}']) by {
            if s@ == seq!['{', '}'] {
                assert(v@.len() == 2);
                assert(v@[0] == '{' && v@[1] == '}');
            }
        }
        reveal_strlit("{");
        assert("{"@ =~= seq!['{']);
        assert(v@.skip(0) =~= v@);
    }
    let p1 = match p_lit(&v, 0, "{") {
        Some(p) => p,
        None => {
            return Err(crate::store::Error::CorruptState);
        },
    };
    match p_task_list(&v, p1) {
        Some((ts, p2)) => {
            if p2 < v.len() && p2 + 1 == v.len() && v[p2] == '}' {
                proof {
                    assert(v@.skip(p2 as int) =~= seq!['}']);
                }
                Ok(ts)
            } else {
                proof {
                    assert(v@.skip(p2 as int) != seq!['}']) by {
                        if v@.skip(p2 as int) == seq!['}'] {
                            assert(v@.skip(p2 as int).len() == 1);
                            assert(v@.skip(p2 as int)[0] == '}');
                            assert(v@[p2 as int] == '}');
                        }
                    }
                }
                Err(crate::store::Error::CorruptState)
            }
        },
        None => Err(crate::store::Error::CorruptState),
    }
}

#[verifier::rlimit(100)]
fn p_user_obj(v: &Vec<char>, pos: usize) -> (r: Option<(User, usize)>)
    requires
        pos <= v.len(),
    ensures
        r matches Some(p) ==> {
            &&& pos < p.1 <= v.len()
            &&& parse_user_obj(v@.skip(pos as int)) == Some((p.0@, v@.skip(p.1 as int)))
        },
        r is None ==> parse_user_obj(v@.skip(pos as int)) is None,
{
    proof {
        reveal_strlit("{\"username\":");
        reveal_strlit(",\"password\":");
        reveal_strlit("}");
        assert("{\"username\":"@ =~= lit_username());
        assert(",\"password\":"@ =~= lit_password());
        assert("}"@ =~= seq!['}']);
    }
    let p1 = match p_lit(v, pos, "{\"username\":") {
        Some(p) => p,
        None => {
            return None;
        },
    };
    let (name_chars, p2) = match p_str(v, p1) {
        Some(x) => x,
        None => {
            return None;
        },
    };
    let p3 = match p_lit(v, p2, ",\"password\":") {
        Some(p) => p,
        None => {
            return None;
        },
    };
    let (pw_chars, p4) = match p_str(v, p3) {
        Some(x) => x,
        None => {
            return None;
        },
    };
    let p5 = match p_lit(v, p4, "}") {
        Some(p) => p,
        None => {
            return None;
        },
    };
    let user = User {
        username: chars_to_string(&name_chars),
        password: chars_to_string(&pw_chars),
    };
    Some((user, p5))
}

fn p_user_entry(v: &Vec<char>, pos: usize) -> (r: Option<(User, usize)>)
    requires
        pos <= v.len(),
    ensures
        r matches Some(p) ==> {
            &&& pos < p.1 <= v.len()
            &&& parse_user_entry(v@.skip(pos as int)) == Some((p.0@, v@.skip(p.1 as int)))
        },
        r is None ==> parse_user_entry(v@.skip(pos as int)) is None,
{
    proof {
        reveal_strlit(":");
        assert(":"@ =~= seq![':']);
    }
    let (key_chars, p1) = match p_str(v, pos) {
        Some(x) => x,
        None => {
            return None;
        },
    };
    let p2 = match p_lit(v, p1, ":") {
        Some(p) => p,
        None => {
            return None;
        },
    };
    let (u, p3) = match p_user_obj(v, p2) {
        Some(x) => x,
        None => {
            return None;
        },
    };
    let key = chars_to_string(&key_chars);
    if u.username == key {
        Some((u, p3))
    } else {
        None
    }
}

fn p_user_list(v: &Vec<char>, pos: usize) -> (r: Option<(Vec<User>, usize)>)
    requires
        pos <= v.len(),
    ensures
        r matches Some(p) ==> {
            &&& pos < p.1 <= v.len()
            &&& parse_user_list(v@.skip(pos as int)) == Some(
                (crate::store::user_views(p.0@), v@.skip(p.1 as int)),
            )
        },
        r is None ==> parse_user_list(v@.skip(pos as int)) is None,
    decreases v.len() - pos,
{
    let (u, p1) = match p_user_entry(v, pos) {
        Some(x) => x,
        None => {
            return None;
        },
    };
    if p1 < v.len() && v[p1] == ',' {
        proof {
            assert(v@.skip(p1 as int)[0] == ',');
            assert(v@.skip(p1 as int).drop_first() =~= v@.skip(p1 + 1));
        }
        match p_user_list(v, p1 + 1) {
            Some((mut us, p2)) => {
                let ghost pus = us@;
                us.insert(0, u);
                proof {
                    assert(crate::store::user_views(us@) =~= seq![u@] + crate::store::user_views(
                        pus,
                    ));
                }
                Some((us, p2))
            },
            None => None,
        }
    } else {
        proof {
            if p1 < v.len() {
                assert(v@.skip(p1 as int)[0] == v@[p1 as int]);
            }
        }
        let mut us: Vec<User> = Vec::new();
        us.push(u);
        proof {
            assert(crate::store::user_views(us@) =~= seq![u@]);
        }
        Some((us, p1))
    }
}

/// Parses the persisted user document. A document that is not exactly the
/// canonical rendering of some collection is rejected as `CorruptState`.
#[verifier::rlimit(100)]
pub fn decode_users(s: &str) -> (r: Result<Vec<User>, crate::store::Error>)
    ensures
        r matches Ok(us) ==> parse_users(s@) == Some(crate::store::user_views(us@)),
        r matches Err(e) ==> {
            &&& e == crate::store::Error::CorruptState
            &&& parse_users(s@) is None
        },
{
    let n = s.unicode_len();
    let mut v: Vec<char> = Vec::new();
    let mut i: usize = 0;
    while i < n
        invariant
            n == s@.len(),
            i <= n,
            v@ == s@.take(i as int),
        decreases n - i,
    {
        v.push(s.get_char(i));
        i += 1;
        proof {
            assert(s@.take(i as int) =~= s@.take(i - 1).push(s@[i - 1]));
        }
    }
    proof {
        assert(s@.take(n as int) =~= s@);
        assert(v@ == s@);
    }
    if v.len() == 2 && v[0] == '{' && v[1] == '}' {
        proof {
            assert(s@ =~= seq!['{', '}']);
        }
        let us: Vec<User> = Vec::new();
        proof {
            assert(crate::store::user_views(us@) =~= Seq::<UserV>::empty());
        }
        return Ok(us);
    }
    proof {
        assert(s@ != seq!['{', '}']) by {
            if s@ == seq!['{', '}'] {
                assert(v@.len() == 2);
                assert(v@[0] == '{' && v@[1] == '}');
            }
        }
        reveal_strlit("{");
        assert("{"@ =~= seq!['{']);
        assert(v@.skip(0) =~= v@);
    }
    let p1 = match p_lit(&v, 0, "{") {
        Some(p) => p,
        None => {
            return Err(crate::store::Error::CorruptState);
        },
    };
    match p_user_list(&v, p1) {
        Some((us, p2)) => {
            if p2 < v.len() && p2 + 1 == v.len() && v[p2] == '}' {
                proof {
                    assert(v@.skip(p2 as int) =~= seq!['}']);
                }
                Ok(us)
            } else {
                proof {
                    assert(v@.skip(p2 as int) != seq!['}']) by {
                        if v@.skip(p2 as int) == seq!['}'] {
                            assert(v@.skip(p2 as int).len() == 1);
                            assert(v@.skip(p2 as int)[0] == '}');
                            assert(v@[p2 as int] == '}');
                        }
                    }
                }
                Err(crate::store::Error::CorruptState)
            }
        },
        None => Err(crate::store::Error::CorruptState),
    }
}

} // verus!

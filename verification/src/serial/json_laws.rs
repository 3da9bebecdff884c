//! What the JSON writer writes, the JSON parser reads back.
//!
//! The parser reads neither `null`, `true` nor `false`; it reads a number without a point
//! as an integer (unsigned unless signed by `-`), and keeps escaping backslashes in strings.
//! So the values that come back as they were written are those built, at every level, of
//! unsigned integers, negative signed integers above `i32::MIN`, decimals with fraction
//! digits, strings (and map keys) without `"` or `\`, lists and maps.
use vstd::prelude::*;
use crate::text::{digit_char, digit_value, decimal_chars};
use crate::schema::decimal::pow10;
use crate::text::{seq_lt, lemma_seq_lt_irreflexive};
use crate::schema::entries::{key_seq, sorted_keys, index_of_key, insert_index, insert_entry, lemma_index_of_key};
use crate::schema::primitives::{SpecValue, lemma_items_wf};
use super::json_writer::{
    padded_digits, escaped, written_string, written_decimal, written_int, json_write, written_items, written_members,
    lemma_key_order_sorted, lemma_written_in_place,
};
use super::json_spec::{
    skip_ws, lemma_skip_ws, is_ws, numeric, number_loop, number_result, normalized, scan_string, parse_value,
    parse_number, parse_array, parse_object, json_parse, ParseFault,
};

verus! {

/// A decimal digit character.
pub open spec fn is_digit_char(c: char) -> bool {
    '0' <= c && c <= '9'
}

/// Every character is a decimal digit.
pub open spec fn all_digits(d: Seq<char>) -> bool {
    forall|i: int| 0 <= i < d.len() ==> is_digit_char(#[trigger] d[i])
}

/// The number read from decimal digits, from the front, starting with `w` already read.
pub open spec fn fold_digits(w: nat, d: Seq<char>) -> nat
    decreases d.len(),
{
    if d.len() == 0 {
        w
    } else {
        let v = match digit_value(d[0]) { Some(x) => x, None => 0 };
        fold_digits(w * 10 + v, d.drop_first())
    }
}

/// Reading one more digit at the end multiplies by ten and adds it.
proof fn lemma_fold_push(w: nat, d: Seq<char>, c: char)
    requires
        is_digit_char(c),
    ensures
        fold_digits(w, d.push(c)) == fold_digits(w, d) * 10 + digit_value(c)->0,
    decreases d.len(),
{
    let vc = digit_value(c)->0;
    if d.len() == 0 {
        assert(d.push(c).drop_first() =~= Seq::<char>::empty());
        assert(d.push(c)[0] == c);
        assert(fold_digits(w * 10 + vc, Seq::<char>::empty()) == w * 10 + vc);
        assert(fold_digits(w, d.push(c)) == fold_digits(w * 10 + vc, d.push(c).drop_first()));
    } else {
        let v = match digit_value(d[0]) { Some(x) => x, None => 0 };
        assert(d.push(c).drop_first() =~= d.drop_first().push(c));
        assert(d.push(c)[0] == d[0]);
        lemma_fold_push(w * 10 + v, d.drop_first(), c);
        assert(fold_digits(w, d.push(c)) == fold_digits(w * 10 + v, d.push(c).drop_first()));
        assert(fold_digits(w, d) == fold_digits(w * 10 + v, d.drop_first()));
    }
}

/// Reading further digits never makes the number smaller.
proof fn lemma_fold_ge(w: nat, d: Seq<char>)
    ensures
        fold_digits(w, d) >= w,
    decreases d.len(),
{
    if d.len() > 0 {
        let v = match digit_value(d[0]) { Some(x) => x, None => 0 };
        lemma_fold_ge(w * 10 + v, d.drop_first());
        assert(w * 10 + v >= w) by (nonlinear_arith);
    }
}

/// The digit character of a value below ten is a digit with that value.
proof fn lemma_digit_char(d: nat)
    requires
        d < 10,
    ensures
        is_digit_char(digit_char(d)),
        digit_value(digit_char(d)) == Some(d),
{
}

/// The decimal rendering of `n` is a non-empty run of digits that reads back as `n`.
pub proof fn lemma_decimal_chars(n: nat)
    ensures
        decimal_chars(n).len() >= 1,
        all_digits(decimal_chars(n)),
        fold_digits(0, decimal_chars(n)) == n,
    decreases n,
{
    if n < 10 {
        lemma_digit_char(n);
        let d = decimal_chars(n);
        assert(d.drop_first() =~= Seq::<char>::empty());
        assert(fold_digits(0 * 10 + n, d.drop_first()) == n);
    } else {
        assert(n == (n / 10) * 10 + n % 10) by (nonlinear_arith);
        lemma_decimal_chars(n / 10);
        lemma_digit_char(n % 10);
        lemma_fold_push(0, decimal_chars(n / 10), digit_char(n % 10));
        let d = decimal_chars(n);
        assert forall|i: int| 0 <= i < d.len() implies is_digit_char(#[trigger] d[i]) by {
            if i < d.len() - 1 {
                assert(d[i] == decimal_chars(n / 10)[i]);
            }
        }
    }
}


/// The last `g` digits of a number below `10^g` are a run of `g` digits reading back as it.
pub proof fn lemma_padded_digits(f: nat, g: nat)
    requires
        f < pow10(g),
    ensures
        padded_digits(f, g).len() == g,
        all_digits(padded_digits(f, g)),
        fold_digits(0, padded_digits(f, g)) == f,
    decreases g,
{
    if g > 0 {
        assert(f / 10 < pow10((g - 1) as nat)) by (nonlinear_arith)
            requires
                f < pow10(g),
                pow10(g) == 10 * pow10((g - 1) as nat),
        ;
        assert(f == (f / 10) * 10 + f % 10) by (nonlinear_arith);
        lemma_padded_digits(f / 10, (g - 1) as nat);
        lemma_digit_char(f % 10);
        lemma_fold_push(0, padded_digits(f / 10, (g - 1) as nat), digit_char(f % 10));
        let d = padded_digits(f, g);
        assert forall|i: int| 0 <= i < d.len() implies is_digit_char(#[trigger] d[i]) by {
            if i < d.len() - 1 {
                assert(d[i] == padded_digits(f / 10, (g - 1) as nat)[i]);
            }
        }
    } else {
        assert(padded_digits(f, g) =~= Seq::<char>::empty());
    }
}

/// The text `s` holds `d` from position `q` on.
pub open spec fn holds_at(s: Seq<char>, q: int, d: Seq<char>) -> bool {
    0 <= q && q + d.len() <= s.len() && s.subrange(q, q + d.len()) == d
}

/// The number reader, from a run of digits at `q` that overflows neither the whole part nor
/// the fraction: it reads them all (into the whole part, or into the fraction once a point
/// was read), then either ends the number at the next token, or goes on reading there.
pub proof fn lemma_read_digits(s: Seq<char>, q: int, d: Seq<char>, negative: bool, whole: nat, frac: Option<nat>, digits: nat)
    requires
        d.len() >= 1,
        all_digits(d),
        holds_at(s, q, d),
        frac is None ==> fold_digits(whole, d) <= u32::MAX,
        frac is Some ==> digits + d.len() <= 9,
    ensures
        ({
            let e = q + d.len();
            let t2 = skip_ws(s, e);
            let w2 = if frac is Some { whole } else { fold_digits(whole, d) };
            let f2 = match frac { Some(f) => Some(fold_digits(f, d)), None => None };
            let g2 = if frac is Some { digits + d.len() } else { digits };
            number_loop(s, q, negative, whole, frac, digits) == if t2 >= s.len() || (s[t2] != '.' && !numeric(s[t2])) {
                number_result(s, negative, w2, f2, g2, t2)
            } else {
                number_loop(s, t2, negative, w2, f2, g2)
            }
        }),
    decreases d.len(),
{
    assert(s[q] == d[0]);
    assert(is_digit_char(d[0]));
    lemma_skip_ws(s, q);
    assert(!is_ws(s[q]));
    assert(skip_ws(s, q) == q);
    let v = digit_value(d[0])->0;
    let w1 = if frac is Some { whole } else { whole * 10 + v };
    let f1 = match frac { Some(f) => Some(f * 10 + v), None => None };
    let g1 = if frac is Some { digits + 1 } else { digits };
    lemma_skip_ws(s, q + 1);
    lemma_fold_ge(whole * 10 + v, d.drop_first());
    assert(fold_digits(whole, d) == fold_digits(whole * 10 + v, d.drop_first()));
    if d.len() == 1 {
        assert(d.drop_first() =~= Seq::<char>::empty());
        assert(fold_digits(whole, d) == fold_digits(whole * 10 + v, d.drop_first()));
        if let Some(f) = frac {
            assert(fold_digits(f, d) == fold_digits(f * 10 + v, d.drop_first()));
        }
    } else {
        let rest = d.drop_first();
        assert(s[q + 1] == d[1]);
        assert(is_digit_char(d[1]));
        assert(!is_ws(s[q + 1]));
        assert(skip_ws(s, q + 1) == q + 1);
        assert(numeric(s[q + 1]));
        assert(all_digits(rest)) by {
            assert forall|i: int| 0 <= i < rest.len() implies is_digit_char(#[trigger] rest[i]) by {
                assert(rest[i] == d[i + 1]);
            }
        }
        assert(holds_at(s, q + 1, rest)) by {
            assert(s.subrange(q + 1, q + 1 + rest.len()) =~= rest);
        }
        lemma_read_digits(s, q + 1, rest, negative, w1, f1, g1);
        assert(fold_digits(whole, d) == fold_digits(whole * 10 + v, rest));
        if let Some(f) = frac {
            assert(fold_digits(f, d) == fold_digits(f * 10 + v, rest));
        }
    }
}

/// Text without quotes or backslashes: the writer and the reader agree on it.
pub open spec fn clean_text(t: Seq<char>) -> bool {
    forall|i: int| 0 <= i < t.len() ==> #[trigger] t[i] != '"' && t[i] != '\\'
}

/// A value that the parser reads back as the writer wrote it (see the module comment).
pub open spec fn json_clean(v: SpecValue) -> bool
    decreases v, 0int,
{
    match v {
        SpecValue::Null => false,
        SpecValue::Bool(_) => false,
        SpecValue::Uint32(_) => true,
        SpecValue::Int32(n) => i32::MIN < n && n < 0,
        SpecValue::Float64(d) => d.fraction_digits > 0,
        SpecValue::String(t) => clean_text(t),
        SpecValue::List(ms) => items_clean(ms, 0),
        SpecValue::Dict(es) => members_clean(es, 0),
    }
}

/// The list members from position `i` on are clean.
pub open spec fn items_clean(ms: Seq<SpecValue>, i: int) -> bool
    decreases ms, ms.len() - i,
{
    if i < 0 || i >= ms.len() {
        true
    } else {
        json_clean(ms[i]) && items_clean(ms, i + 1)
    }
}

/// The map members from position `i` on have clean keys and values.
pub open spec fn members_clean(es: Seq<(Seq<char>, SpecValue)>, i: int) -> bool
    decreases es, es.len() - i,
{
    if i < 0 || i >= es.len() {
        true
    } else {
        clean_text(es[i].0) && json_clean(es[i].1) && members_clean(es, i + 1)
    }
}

/// After position `e`, the next token (if any) cannot continue a number.
pub open spec fn ends_value(s: Seq<char>, e: int) -> bool {
    let t = skip_ws(s, e);
    t >= s.len() || (s[t] != '.' && !numeric(s[t]))
}

/// Clean text is written between quotes as it is.
proof fn lemma_written_clean(t: Seq<char>)
    requires
        clean_text(t),
    ensures
        written_string(t) == seq!['"'] + t + seq!['"'],
{
    lemma_escaped_clean(t);
    if t.len() > 0 {
        assert(t[t.len() - 1] != '\\');
    }
    assert(written_string(t) =~= seq!['"'] + t + seq!['"']);
}

/// Clean text needs no escaping.
proof fn lemma_escaped_clean(t: Seq<char>)
    requires
        clean_text(t),
    ensures
        escaped(t) == t,
    decreases t.len(),
{
    if t.len() > 0 {
        let init = t.drop_last();
        assert(clean_text(init)) by {
            assert forall|i: int| 0 <= i < init.len() implies #[trigger] init[i] != '"' && init[i] != '\\' by {
                assert(init[i] == t[i]);
            }
        }
        lemma_escaped_clean(init);
        assert(t[t.len() - 1] != '"');
        assert(init.push(t.last()) =~= t);
    }
}

/// Clean text followed by a quote is scanned as the text, ending after the quote.
proof fn lemma_scan_clean(s: Seq<char>, i: int, t: Seq<char>)
    requires
        clean_text(t),
        holds_at(s, i, t.push('"')),
    ensures
        scan_string(s, i, false) == Some((t, i + t.len() + 1)),
    decreases t.len(),
{
    assert(s[i] == t.push('"')[0]);
    if t.len() == 0 {
        assert(s[i] == '"');
    } else {
        assert(s[i] == t[0]);
        assert(t[0] != '"' && t[0] != '\\');
        let rest = t.drop_first();
        assert(clean_text(rest)) by {
            assert forall|k: int| 0 <= k < rest.len() implies #[trigger] rest[k] != '"' && rest[k] != '\\' by {
                assert(rest[k] == t[k + 1]);
            }
        }
        assert(holds_at(s, i + 1, rest.push('"'))) by {
            assert(s.subrange(i + 1, i + 1 + rest.len() + 1) =~= rest.push('"')) by {
                assert forall|k: int| 0 <= k < rest.len() + 1 implies s.subrange(i + 1, i + 1 + rest.len() + 1)[k] == rest.push('"')[k] by {
                    assert(s[i + 1 + k] == t.push('"')[k + 1]);
                }
            }
        }
        lemma_scan_clean(s, i + 1, rest);
        assert(seq![t[0]] + rest =~= t);
    }
}

/// Text that holds `x + y` at `q` holds `x` at `q` and `y` right after it.
proof fn lemma_holds_split(s: Seq<char>, q: int, x: Seq<char>, y: Seq<char>)
    requires
        holds_at(s, q, x + y),
    ensures
        holds_at(s, q, x),
        holds_at(s, q + x.len(), y),
{
    assert(s.subrange(q, q + x.len()) =~= x) by {
        assert forall|k: int| 0 <= k < x.len() implies s.subrange(q, q + x.len())[k] == x[k] by {
            assert(s.subrange(q, q + x.len() + y.len())[k] == (x + y)[k]);
        }
    }
    assert(s.subrange(q + x.len(), q + x.len() + y.len()) =~= y) by {
        assert forall|k: int| 0 <= k < y.len() implies s.subrange(q + x.len(), q + x.len() + y.len())[k] == y[k] by {
            assert(s.subrange(q, q + x.len() + y.len())[x.len() + k] == (x + y)[x.len() + k]);
        }
    }
}

/// Text that holds `x` at `q` has `x[k]` at `q + k`.
proof fn lemma_holds_char(s: Seq<char>, q: int, x: Seq<char>, k: int)
    requires
        holds_at(s, q, x),
        0 <= k < x.len(),
    ensures
        s[q + k] == x[k],
{
    assert(s.subrange(q, q + x.len())[k] == x[k]);
}

/// A position holding a character that is not whitespace is its own next token.
proof fn lemma_skip_none(s: Seq<char>, q: int)
    requires
        0 <= q < s.len(),
        !is_ws(s[q]),
    ensures
        skip_ws(s, q) == q,
{
}

/// What a clean value's text starts with: a digit, `-`, `"`, `[` or `{`.
proof fn lemma_first_char(v: SpecValue)
    requires
        json_clean(v),
    ensures
        json_write(v).len() >= 1,
        ({
            let c = json_write(v)[0];
            is_digit_char(c) || c == '-' || c == '"' || c == '[' || c == '{'
        }),
{
    match v {
        SpecValue::Uint32(n) => {
            lemma_decimal_chars(n as nat);
        },
        SpecValue::Float64(d) => {
            lemma_decimal_chars(d.whole as nat);
            if !d.negative {
                assert(written_decimal(d)[0] == decimal_chars(d.whole as nat)[0]);
            }
        },
        SpecValue::String(t) => {
            lemma_written_clean(t);
        },
        _ => {},
    }
}

/// Keys below `key`, every one of them, put `key` at the end.
proof fn lemma_insert_index_last(keys: Seq<Seq<char>>, key: Seq<char>)
    requires
        forall|j: int| 0 <= j < keys.len() ==> seq_lt(#[trigger] keys[j], key),
    ensures
        insert_index(keys, key) == keys.len(),
    decreases keys.len(),
{
    if keys.len() > 0 {
        let rest = keys.drop_first();
        assert forall|j: int| 0 <= j < rest.len() implies seq_lt(#[trigger] rest[j], key) by {
            assert(rest[j] == keys[j + 1]);
        }
        lemma_insert_index_last(rest, key);
        assert(seq_lt(keys[0], key));
    }
}

/// Binding the next key of ascending entries to its member extends the prefix before it.
proof fn lemma_insert_next(es: Seq<(Seq<char>, SpecValue)>, i: int)
    requires
        sorted_keys(key_seq(es)),
        0 <= i < es.len(),
    ensures
        insert_entry(es.subrange(0, i), es[i].0, es[i].1) == es.subrange(0, i + 1),
{
    let pre = es.subrange(0, i);
    let keys = key_seq(pre);
    let key = es[i].0;
    assert forall|j: int| 0 <= j < keys.len() implies seq_lt(#[trigger] keys[j], key) by {
        assert(keys[j] == key_seq(es)[j]);
        assert(key == key_seq(es)[i]);
    }
    lemma_insert_index_last(keys, key);
    lemma_index_of_key(keys, key);
    if let Some(j) = index_of_key(keys, key) {
        lemma_seq_lt_irreflexive(key);
    }
    assert(pre.insert(pre.len() as int, (key, es[i].1)) =~= es.subrange(0, i + 1));
}

/// The parser reads back what the writer wrote of a clean, well-formed value `v` held at
/// `p`, when what follows cannot continue a number: it reads `v`, and the next token after
/// where it stops is the next token after the written text.
#[verifier::spinoff_prover]
#[verifier::rlimit(40)]
pub proof fn lemma_value_read_back(s: Seq<char>, p: int, v: SpecValue)
    requires
        v.wf(),
        json_clean(v),
        holds_at(s, p, json_write(v)),
        ends_value(s, p + json_write(v).len()),
    ensures
        parse_value(s, p) matches Ok((r, q)) && r == v && p + json_write(v).len() <= q <= s.len()
            && skip_ws(s, q) == skip_ws(s, p + json_write(v).len()),
    decreases v, 0int,
{
    let w = json_write(v);
    let e = p + w.len();
    lemma_first_char(v);
    lemma_holds_char(s, p, w, 0);
    lemma_skip_none(s, p);
    lemma_skip_ws(s, e);
    match v {
        SpecValue::Uint32(n) => {
            lemma_decimal_chars(n as nat);
            assert(numeric(s[p]));
            lemma_read_digits(s, p, w, false, 0, None, 0);
        },
        SpecValue::Int32(n) => {
            let digits = decimal_chars((-n) as nat);
            lemma_decimal_chars((-n) as nat);
            assert(w == seq!['-'] + digits);
            lemma_holds_split(s, p, seq!['-'], digits);
            lemma_read_digits(s, p + 1, digits, true, 0, None, 0);
        },
        SpecValue::Float64(d) => {
            let sign: Seq<char> = if d.negative { seq!['-'] } else { Seq::empty() };
            let whole = decimal_chars(d.whole as nat);
            let frac = padded_digits(d.fraction as nat, d.fraction_digits as nat);
            lemma_decimal_chars(d.whole as nat);
            lemma_padded_digits(d.fraction as nat, d.fraction_digits as nat);
            assert(w == sign + (whole + (seq!['.'] + frac))) by {
                assert(written_decimal(d) =~= sign + (whole + (seq!['.'] + frac)));
            }
            lemma_holds_split(s, p, sign, whole + (seq!['.'] + frac));
            let a = p + sign.len();
            lemma_holds_split(s, a, whole, seq!['.'] + frac);
            let e1 = a + whole.len();
            lemma_holds_split(s, e1, seq!['.'], frac);
            lemma_holds_char(s, e1, seq!['.'], 0);
            lemma_skip_none(s, e1);
            if !d.negative {
                lemma_holds_char(s, a, whole, 0);
                assert(numeric(s[p]));
            }
            lemma_read_digits(s, a, whole, d.negative, 0, None, 0);
            assert(!numeric('.'));
            lemma_read_digits(s, e1 + 1, frac, d.negative, d.whole as nat, Some(0), 0);
            assert(e1 + 1 + frac.len() == e);
            assert(normalized(d.negative, d.whole as nat, d.fraction as nat, d.fraction_digits as nat) == d);
        },
        SpecValue::String(t) => {
            lemma_written_clean(t);
            assert(w == seq!['"'] + t.push('"'));
            lemma_holds_split(s, p, seq!['"'], t.push('"'));
            lemma_scan_clean(s, p + 1, t);
        },
        SpecValue::List(ms) => {
            let inner = written_items(ms, 0);
            assert(w == seq!['['] + inner.push(']'));
            lemma_holds_split(s, p, seq!['['], inner.push(']'));
            lemma_items_wf(ms, 0);
            lemma_items_read_back(s, p + 1, ms, 0);
            assert(ms.subrange(0, 0) =~= Seq::<SpecValue>::empty());
        },
        SpecValue::Dict(es) => {
            let inner = written_members(es, 0);
            lemma_key_order_sorted(es, es.len() as int);
            lemma_written_in_place(es, 0);
            assert(w == seq!['{'] + inner.push('}'));
            lemma_holds_split(s, p, seq!['{'], inner.push('}'));
            lemma_members_read_back(s, p + 1, es, 0);
            assert(es.subrange(0, 0) =~= Seq::<(Seq<char>, SpecValue)>::empty());
        },
        _ => {},
    }
}

/// The parser reads back the written list members from position `i` on, followed by `]`.
#[verifier::spinoff_prover]
#[verifier::rlimit(40)]
proof fn lemma_items_read_back(s: Seq<char>, p: int, ms: Seq<SpecValue>, i: int)
    requires
        0 <= i <= ms.len(),
        forall|k: int| i <= k < ms.len() ==> (#[trigger] ms[k]).wf(),
        items_clean(ms, i),
        holds_at(s, p, written_items(ms, i).push(']')),
    ensures
        parse_array(s, p, ms.subrange(0, i)) == Ok::<(SpecValue, int), ParseFault>((SpecValue::List(ms), p + written_items(ms, i).len() + 1)),
    decreases ms, ms.len() - i,
{
    let wi = written_items(ms, i);
    lemma_skip_ws(s, p);
    if i == ms.len() {
        assert(wi.push(']') =~= seq![']']);
        lemma_holds_char(s, p, wi.push(']'), 0);
        lemma_skip_none(s, p);
        assert(ms.subrange(0, i) =~= ms);
    } else {
        let v = ms[i];
        let wv = json_write(v);
        let last = i == ms.len() - 1;
        let sep: Seq<char> = if !last { seq![','] } else { Seq::empty() };
        let rest = written_items(ms, i + 1);
        assert(wi == wv + sep + rest);
        assert(wi.push(']') =~= wv + (sep + rest.push(']')));
        lemma_holds_split(s, p, wv, sep + rest.push(']'));
        let e = p + wv.len();
        if last {
            assert(rest =~= Seq::<char>::empty());
        }
        lemma_holds_char(s, e, sep + rest.push(']'), 0);
        assert(s[e] == ',' || s[e] == ']');
        lemma_skip_none(s, e);
        lemma_first_char(v);
        lemma_holds_char(s, p, wv, 0);
        lemma_skip_none(s, p);
        lemma_value_read_back(s, p, v);
        let q = parse_value(s, p)->Ok_0.1;
        lemma_skip_ws(s, q);
        assert(q == e);
        assert(s[p] != ']');
        assert(ms.subrange(0, i).push(v) =~= ms.subrange(0, i + 1));
        if !last {
            lemma_holds_split(s, e, seq![','], rest.push(']'));
            lemma_items_read_back(s, e + 1, ms, i + 1);
            assert(parse_array(s, p, ms.subrange(0, i)) == parse_array(s, e + 1, ms.subrange(0, i + 1)));
            assert(wi.len() == wv.len() + 1 + rest.len());
        } else {
            assert(ms.subrange(0, i + 1) =~= ms);
            assert(s[e] == ']');
            assert(parse_array(s, p, ms.subrange(0, i)) == parse_array(s, e, ms));
            assert(parse_array(s, e, ms) == Ok::<(SpecValue, int), ParseFault>((SpecValue::List(ms), e + 1)));
        }
    }
}

/// The parser reads back the written map members from position `i` on, followed by `}`.
#[verifier::spinoff_prover]
#[verifier::rlimit(40)]
proof fn lemma_members_read_back(s: Seq<char>, p: int, es: Seq<(Seq<char>, SpecValue)>, i: int)
    requires
        0 <= i <= es.len(),
        sorted_keys(key_seq(es)),
        forall|k: int| 0 <= k < es.len() ==> (#[trigger] es[k]).1.wf(),
        members_clean(es, i),
        holds_at(s, p, written_members(es, i).push('}')),
    ensures
        parse_object(s, p, es.subrange(0, i)) == Ok::<(SpecValue, int), ParseFault>((SpecValue::Dict(es), p + written_members(es, i).len() + 1)),
    decreases es, es.len() - i,
{
    let wm = written_members(es, i);
    lemma_skip_ws(s, p);
    if i == es.len() {
        assert(wm.push('}') =~= seq!['}']);
        lemma_holds_char(s, p, wm.push('}'), 0);
        lemma_skip_none(s, p);
        assert(es.subrange(0, i) =~= es);
    } else {
        let key = es[i].0;
        let v = es[i].1;
        let wv = json_write(v);
        let last = i == es.len() - 1;
        let sep: Seq<char> = if !last { seq![','] } else { Seq::empty() };
        let rest = written_members(es, i + 1);
        lemma_written_clean(key);
        assert(wm == written_string(key) + seq![':'] + wv + sep + rest);
        assert(wm.push('}') =~= seq!['"'] + (key.push('"') + (seq![':'] + (wv + (sep + rest.push('}'))))));
        lemma_holds_split(s, p, seq!['"'], key.push('"') + (seq![':'] + (wv + (sep + rest.push('}')))));
        lemma_holds_char(s, p, seq!['"'], 0);
        lemma_skip_none(s, p);
        lemma_holds_split(s, p + 1, key.push('"'), seq![':'] + (wv + (sep + rest.push('}'))));
        lemma_scan_clean(s, p + 1, key);
        let q = p + 1 + key.len() + 1;
        lemma_holds_split(s, q, seq![':'], wv + (sep + rest.push('}')));
        lemma_holds_char(s, q, seq![':'], 0);
        lemma_skip_none(s, q);
        lemma_holds_split(s, q + 1, wv, sep + rest.push('}'));
        let e = q + 1 + wv.len();
        if last {
            assert(rest =~= Seq::<char>::empty());
        }
        lemma_holds_char(s, e, sep + rest.push('}'), 0);
        assert(s[e] == ',' || s[e] == '}');
        lemma_skip_none(s, e);
        lemma_value_read_back(s, q + 1, v);
        let q2 = parse_value(s, q + 1)->Ok_0.1;
        lemma_skip_ws(s, q2);
        assert(q2 == e);
        lemma_insert_next(es, i);
        assert(s[p] != '}');
        assert(scan_string(s, p + 1, false) == Some((key, q)));
        if !last {
            lemma_holds_split(s, e, seq![','], rest.push('}'));
            lemma_members_read_back(s, e + 1, es, i + 1);
            assert(parse_object(s, p, es.subrange(0, i)) == parse_object(s, e + 1, es.subrange(0, i + 1)));
        } else {
            assert(es.subrange(0, i + 1) =~= es);
            assert(s[e] == '}');
            assert(parse_object(s, p, es.subrange(0, i)) == parse_object(s, e, es));
            assert(parse_object(s, e, es) == Ok::<(SpecValue, int), ParseFault>((SpecValue::Dict(es), e + 1)));
        }
    }
}

/// Law: the JSON parser reads back exactly the value the JSON writer wrote, for every
/// well-formed value built of unsigned integers, negative signed integers above `i32::MIN`,
/// decimals with fraction digits, strings without quotes or backslashes, lists and maps
/// with such keys.
pub proof fn law_json_round_trip(v: SpecValue)
    requires
        v.wf(),
        json_clean(v),
    ensures
        json_parse(json_write(v)) == Ok::<SpecValue, ParseFault>(v),
{
    let s = json_write(v);
    assert(s.subrange(0, s.len() as int) =~= s);
    lemma_skip_ws(s, s.len() as int);
    lemma_value_read_back(s, 0, v);
}
} // verus!

verus! {

/// Law: a signed integer is written as its decimal text: a `-` exactly when it is negative,
/// then digits that read as its magnitude. A non-negative one is read back as that number
/// (as an unsigned integer, since the reader gives a number without a sign that type).
pub proof fn law_int_written_as_decimal(n: i32)
    ensures
        json_write(SpecValue::Int32(n)).len() >= 1,
        (json_write(SpecValue::Int32(n))[0] == '-') <==> n < 0,
        n < 0 ==> all_digits(json_write(SpecValue::Int32(n)).drop_first())
            && fold_digits(0, json_write(SpecValue::Int32(n)).drop_first()) == -n,
        n >= 0 ==> all_digits(json_write(SpecValue::Int32(n))) && fold_digits(0, json_write(SpecValue::Int32(n))) == n,
        n >= 0 ==> json_parse(json_write(SpecValue::Int32(n))) == Ok::<SpecValue, ParseFault>(SpecValue::Uint32(n as u32)),
{
    let w = json_write(SpecValue::Int32(n));
    if n < 0 {
        lemma_decimal_chars((-n) as nat);
        assert(w.drop_first() =~= decimal_chars((-n) as nat));
    } else {
        lemma_decimal_chars(n as nat);
        assert(is_digit_char(w[0]));
        assert(w == json_write(SpecValue::Uint32(n as u32)));
        law_json_round_trip(SpecValue::Uint32(n as u32));
    }
}

} // verus!

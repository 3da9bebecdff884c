//! What the JSON parser reads from a character sequence.
//!
//! The reader skips spaces, line feeds and carriage returns between tokens. It reads
//! numbers (an optional `-`, then digits with at most one `.`), strings (from an opening
//! character to the next `"` not preceded by an odd run of backslashes, backslashes kept),
//! arrays and objects. It does not read `null`, `true` or `false`, and it ignores what
//! follows the first complete value.
use vstd::prelude::*;
use crate::text::{digit_value, decimal_chars};
use crate::schema::decimal::{Decimal, pow10, lemma_pow10_small, lemma_pow10_monotone};
use crate::schema::entries::{insert_entry, key_seq, sorted_keys, lemma_insert_entry_sorted, lemma_insert_entry_all};
use crate::schema::primitives::{SpecValue, lemma_items_wf};

verus! {

/// Whether `char::is_numeric` holds of a character beyond ASCII (the Unicode number
/// categories).
pub uninterp spec fn char_is_numeric(c: char) -> bool;

/// Whether `char::is_numeric` holds of a character: among ASCII characters exactly the
/// digits `0` to `9`, beyond ASCII the Unicode number categories.
pub open spec fn numeric(c: char) -> bool {
    if (c as u32) < 128 {
        '0' <= c && c <= '9'
    } else {
        char_is_numeric(c)
    }
}

/// `char::is_numeric`: true for characters in the Unicode number categories (Nd, Nl, No),
/// which among ASCII characters are exactly the digits `0` to `9`.
#[verifier::external_body]
pub(crate) fn is_numeric(c: char) -> (r: bool)
    ensures
        (c as u32) < 128 ==> (r <==> ('0' <= c && c <= '9')),
        (c as u32) >= 128 ==> r == char_is_numeric(c),
{
    c.is_numeric()
}

/// The whitespace skipped between tokens.
pub open spec fn is_ws(c: char) -> bool {
    c == ' ' || c == '\n' || c == '\r'
}

/// The first position at or after `p` that is not whitespace (or the end).
pub open spec fn skip_ws(s: Seq<char>, p: int) -> int
    decreases s.len() - p,
{
    if p < 0 || p >= s.len() {
        p
    } else if is_ws(s[p]) {
        skip_ws(s, p + 1)
    } else {
        p
    }
}

/// `skip_ws` moves forward over whitespace only, and stays within the sequence.
pub proof fn lemma_skip_ws(s: Seq<char>, p: int)
    requires
        0 <= p <= s.len(),
    ensures
        p <= skip_ws(s, p) <= s.len(),
        skip_ws(s, p) < s.len() ==> !is_ws(s[skip_ws(s, p)]),
        forall|k: int| p <= k < skip_ws(s, p) ==> is_ws(#[trigger] s[k]),
        skip_ws(s, skip_ws(s, p)) == skip_ws(s, p),
    decreases s.len() - p,
{
    if p < s.len() && is_ws(s[p]) {
        lemma_skip_ws(s, p + 1);
    }
}

/// The characters of a string body starting at `i` up to its closing quote, and the position
/// after that quote. A backslash toggles whether the next quote closes the string; all
/// characters but the closing quote are kept.
pub open spec fn scan_string(s: Seq<char>, i: int, esc: bool) -> Option<(Seq<char>, int)>
    decreases s.len() - i,
{
    if i < 0 || i >= s.len() {
        None
    } else if s[i] == '"' && !esc {
        Some((Seq::empty(), i + 1))
    } else {
        match scan_string(s, i + 1, if s[i] == '\\' { !esc } else { esc }) {
            Some((rest, q)) => Some((seq![s[i]] + rest, q)),
            None => None,
        }
    }
}

/// A string read at `p`: the next token (whatever it is) opens it.
pub open spec fn parse_raw_string(s: Seq<char>, p: int) -> Option<(Seq<char>, int)> {
    let t = skip_ws(s, p);
    if 0 <= t < s.len() {
        scan_string(s, t + 1, false)
    } else {
        None
    }
}

/// The decimal `±(whole + frac / 10^digits)` with trailing zero digits of the fraction dropped.
pub open spec fn normalized(negative: bool, whole: nat, frac: nat, digits: nat) -> Decimal
    decreases digits,
{
    if digits > 0 && frac % 10 == 0 {
        normalized(negative, whole, frac / 10, (digits - 1) as nat)
    } else {
        Decimal { negative, whole: whole as u32, fraction: frac as u32, fraction_digits: digits as u32 }
    }
}

/// Why and where the reader gave up: the message, and the reader's position, which counts
/// every character it took and, once, the end of the text when it reached it.
pub struct ParseFault {
    pub message: Seq<char>,
    pub position: int,
}

/// A fault found on looking at the next token from `p`: reported just after that token, or,
/// when there is none, one past the end.
pub open spec fn fault(message: Seq<char>, s: Seq<char>, p: int) -> ParseFault {
    ParseFault { message, position: fault_position(s, p) }
}

/// The reader's position once it has looked at the next token from `p`: just after that
/// token, or, when there is none, one past the end.
pub open spec fn fault_position(s: Seq<char>, p: int) -> int {
    if next_token(s, p) is Some {
        after_token(s, p)
    } else {
        s.len() + 1int
    }
}

/// A fault found on reaching the end of the text.
pub open spec fn end_fault(message: Seq<char>, s: Seq<char>) -> ParseFault {
    ParseFault { message, position: s.len() + 1int }
}

/// A position as the reader counts it: at most `u32::MAX`.
pub open spec fn saturated(x: int) -> nat {
    if x > u32::MAX {
        u32::MAX as nat
    } else if x < 0 {
        0
    } else {
        x as nat
    }
}

/// The message of a parse error for a fault.
pub open spec fn fault_text(f: ParseFault) -> Seq<char> {
    "Syntax error at position "@ + decimal_chars(saturated(f.position)) + ": "@ + f.message
}

/// The value of a completely read number, the next token after it looked at from `q`: a
/// fraction makes it a `Float64`, a minus sign an `Int32`, otherwise a `Uint32`. A negative
/// whole part beyond `i32::MAX` (or a part too large, which the reading of the digits has
/// already refused) is a numeric overflow.
pub open spec fn number_result(s: Seq<char>, negative: bool, whole: nat, frac: Option<nat>, digits: nat, q: int) -> Result<(SpecValue, int), ParseFault> {
    if whole > u32::MAX {
        Err(fault("Numeric overflow"@, s, q))
    } else {
        match frac {
            Some(f) => if digits > 9 {
                Err(fault("Numeric overflow"@, s, q))
            } else {
                Ok((SpecValue::Float64(normalized(negative, whole, f, digits)), q))
            },
            None => if negative {
                if whole > i32::MAX {
                    Err(fault("Numeric overflow"@, s, q))
                } else {
                    Ok((SpecValue::Int32((-whole) as i32), q))
                }
            } else {
                Ok((SpecValue::Uint32(whole as u32), q))
            },
        }
    }
}

/// Reads the digits and decimal point of a number from position `q`, having read so far the
/// whole part `whole`, the fraction `frac` (once a point was read) with `digits` digits.
/// A second point, a token that is neither point nor digit, a whole part beyond 32 bits or a
/// tenth fraction digit is refused at that token. After each digit the reader looks at the
/// next token: unless it is a point or numeric, the number ends there.
pub open spec fn number_loop(s: Seq<char>, q: int, negative: bool, whole: nat, frac: Option<nat>, digits: nat) -> Result<(SpecValue, int), ParseFault>
    decreases s.len() - q,
{
    if q < 0 || q > s.len() {
        Err(end_fault("Unterminated value"@, s))
    } else {
        proof {
            lemma_skip_ws(s, q);
        }
        let t = skip_ws(s, q);
        if t >= s.len() {
            Err(end_fault("Unterminated value"@, s))
        } else {
            let c = s[t];
            if c == '.' {
                if frac is Some {
                    Err(fault("Repeat decimal token"@, s, q))
                } else {
                    number_loop(s, t + 1, negative, whole, Some(0), digits)
                }
            } else {
                match digit_value(c) {
                    None => Err(fault("Invalid token for number"@, s, q)),
                    Some(d) => if (frac is Some && digits >= 9) || (frac is None && whole * 10 + d > u32::MAX) {
                        Err(fault("Numeric overflow"@, s, q))
                    } else {
                        let w2 = if frac is Some { whole } else { whole * 10 + d };
                        let f2 = match frac { Some(f) => Some(f * 10 + d), None => None };
                        let g2 = if frac is Some { digits + 1 } else { digits };
                        proof {
                            lemma_skip_ws(s, t + 1);
                        }
                        let t2 = skip_ws(s, t + 1);
                        if t2 >= s.len() || (s[t2] != '.' && !numeric(s[t2])) {
                            number_result(s, negative, w2, f2, g2, t2)
                        } else {
                            number_loop(s, t2, negative, w2, f2, g2)
                        }
                    },
                }
            }
        }
    }
}

/// A number read at its first token `t`.
pub open spec fn parse_number(s: Seq<char>, t: int) -> Result<(SpecValue, int), ParseFault> {
    if 0 <= t < s.len() && s[t] == '-' {
        number_loop(s, t + 1, true, 0, None, 0)
    } else {
        number_loop(s, t, false, 0, None, 0)
    }
}

/// The value read from position `p`, and the position after it.
pub open spec fn parse_value(s: Seq<char>, p: int) -> Result<(SpecValue, int), ParseFault>
    decreases s.len() - p, 0int,
{
    if p < 0 || p > s.len() {
        Err(end_fault("Unterminated value"@, s))
    } else {
        proof {
            lemma_skip_ws(s, p);
        }
        let t = skip_ws(s, p);
        if t >= s.len() {
            Err(end_fault("Unterminated value"@, s))
        } else {
            let c = s[t];
            if c == '-' || numeric(c) {
                parse_number(s, t)
            } else if c == '{' {
                parse_object(s, t + 1, Seq::empty())
            } else if c == '[' {
                parse_array(s, t + 1, Seq::empty())
            } else if c == '"' {
                match scan_string(s, t + 1, false) {
                    Some((text, q)) => Ok((SpecValue::String(text), q)),
                    None => Err(end_fault("Unterminated string"@, s)),
                }
            } else {
                Err(fault("Invalid token in value position"@, s, p))
            }
        }
    }
}

/// The rest of an array from position `p` (after `[` or a separating `,`), with the members
/// `items` read so far.
pub open spec fn parse_array(s: Seq<char>, p: int, items: Seq<SpecValue>) -> Result<(SpecValue, int), ParseFault>
    decreases s.len() - p, 1int,
{
    if p < 0 || p > s.len() {
        Err(end_fault("Unterminated value"@, s))
    } else {
        proof {
            lemma_skip_ws(s, p);
        }
        let t = skip_ws(s, p);
        if t >= s.len() {
            Err(end_fault("Unterminated value"@, s))
        } else if s[t] == ']' {
            Ok((SpecValue::List(items), t + 1))
        } else {
            match parse_value(s, t) {
                Err(e) => Err(e),
                Ok((v, q)) => if !(t < q <= s.len()) {
                    Err(end_fault("Unterminated value"@, s))
                } else {
                    proof {
                        lemma_skip_ws(s, q);
                    }
                    let t2 = skip_ws(s, q);
                    if t2 >= s.len() {
                        Err(end_fault("Unterminated value"@, s))
                    } else if s[t2] == ',' {
                        parse_array(s, t2 + 1, items.push(v))
                    } else if s[t2] != ']' {
                        Err(fault("Invalid token after array element position"@, s, q))
                    } else {
                        parse_array(s, t2, items.push(v))
                    }
                },
            }
        }
    }
}

/// The rest of an object from position `p` (after `{` or a separating `,`), with the members
/// `es` read so far. A member is a key string, a `:`, and a value; a repeated key keeps its
/// last value.
pub open spec fn parse_object(s: Seq<char>, p: int, es: Seq<(Seq<char>, SpecValue)>) -> Result<(SpecValue, int), ParseFault>
    decreases s.len() - p, 1int,
{
    if p < 0 || p > s.len() {
        Err(end_fault("Unterminated value"@, s))
    } else {
        proof {
            lemma_skip_ws(s, p);
        }
        let t = skip_ws(s, p);
        if t >= s.len() {
            Err(end_fault("Unterminated value"@, s))
        } else if s[t] == '}' {
            Ok((SpecValue::Dict(es), t + 1))
        } else {
            match scan_string(s, t + 1, false) {
                None => Err(end_fault("Unterminated string"@, s)),
                Some((key, q)) => if !(t < q <= s.len()) {
                    Err(end_fault("Unterminated value"@, s))
                } else {
                    proof {
                        lemma_skip_ws(s, q);
                    }
                    let t2 = skip_ws(s, q);
                    if t2 >= s.len() {
                        Err(end_fault("Unterminated value"@, s))
                    } else if s[t2] != ':' {
                        Err(fault("Object key without trailing :"@, s, q))
                    } else {
                        match parse_value(s, t2 + 1) {
                            Err(e) => Err(e),
                            Ok((v, q2)) => if !(t2 + 1 <= q2 <= s.len()) {
                                Err(end_fault("Unterminated value"@, s))
                            } else {
                                proof {
                                    lemma_skip_ws(s, q2);
                                }
                                let t3 = skip_ws(s, q2);
                                let es2 = insert_entry(es, key, v);
                                if t3 >= s.len() {
                                    Err(end_fault("Unterminated value"@, s))
                                } else if s[t3] == ',' {
                                    parse_object(s, t3 + 1, es2)
                                } else if s[t3] != '}' {
                                    Err(fault("Invalid token after object value position"@, s, q2))
                                } else {
                                    parse_object(s, t3, es2)
                                }
                            },
                        }
                    }
                },
            }
        }
    }
}

/// The value a JSON text holds: the value read from its start.
pub open spec fn json_parse(s: Seq<char>) -> Result<SpecValue, ParseFault> {
    match parse_value(s, 0) {
        Ok((v, _)) => Ok(v),
        Err(e) => Err(e),
    }
}

} // verus!

verus! {

/// The next token read from position `p`, if any.
pub open spec fn next_token(s: Seq<char>, p: int) -> Option<char> {
    let t = skip_ws(s, p);
    if 0 <= t < s.len() {
        Some(s[t])
    } else {
        None
    }
}

/// The position after the next token read from `p` (the end, when there is none).
pub open spec fn after_token(s: Seq<char>, p: int) -> int {
    let t = skip_ws(s, p);
    if 0 <= t < s.len() {
        t + 1
    } else {
        t
    }
}

} // verus!

verus! {

/// A scanned string ends after where it starts and within the text.
pub proof fn lemma_scan_string(s: Seq<char>, i: int, esc: bool)
    ensures
        scan_string(s, i, esc) matches Some((_, q)) ==> i < q <= s.len(),
    decreases s.len() - i,
{
    if 0 <= i < s.len() && !(s[i] == '"' && !esc) {
        lemma_scan_string(s, i + 1, if s[i] == '\\' { !esc } else { esc });
    }
}

/// Normalizing a fraction that fits keeps the decimal well-formed.
pub proof fn lemma_normalized_wf(negative: bool, whole: nat, f: nat, g: nat)
    requires
        whole <= u32::MAX,
        g <= 9,
        f < pow10(g),
    ensures
        normalized(negative, whole, f, g).wf(),
    decreases g,
{
    lemma_pow10_small();
    lemma_pow10_monotone(g, 9);
    if g > 0 && f % 10 == 0 {
        let h = (g - 1) as nat;
        assert(pow10(g) == 10 * pow10(h));
        assert(f / 10 < pow10(h)) by (nonlinear_arith)
            requires
                f < 10 * pow10(h),
        ;
        lemma_normalized_wf(negative, whole, f / 10, h);
    }
}

/// A further fraction digit keeps the fraction below the next power of ten.
pub proof fn lemma_fraction_digit(f: nat, g: nat, d: nat)
    requires
        f < pow10(g),
        d < 10,
    ensures
        f * 10 + d < pow10(g + 1),
{
    assert(pow10(g + 1) == 10 * pow10(g));
    assert(f * 10 + d < 10 * pow10(g)) by (nonlinear_arith)
        requires
            f < pow10(g),
            d < 10,
    ;
}

/// A digit value is below ten.
pub proof fn lemma_digit_value(c: char)
    ensures
        digit_value(c) matches Some(d) ==> d < 10,
{
}

/// A number read from `q` ends after `q`, within the text, and is well-formed.
pub proof fn lemma_number_loop(s: Seq<char>, q: int, negative: bool, whole: nat, frac: Option<nat>, digits: nat)
    requires
        frac matches Some(f) ==> f < pow10(digits),
    ensures
        number_loop(s, q, negative, whole, frac, digits) matches Ok((v, q2)) ==> q < q2 <= s.len() && v.wf(),
    decreases s.len() - q,
{
    if 0 <= q <= s.len() {
        lemma_skip_ws(s, q);
        let t = skip_ws(s, q);
        if t < s.len() {
            let c = s[t];
            if c == '.' {
                if frac is None {
                    lemma_pow10_monotone(0, digits);
                    lemma_number_loop(s, t + 1, negative, whole, Some(0), digits);
                }
            } else if let Some(d) = digit_value(c) {
                lemma_digit_value(c);
                let w2 = if frac is Some { whole } else { whole * 10 + d };
                let f2 = match frac { Some(f) => Some(f * 10 + d), None => None };
                let g2 = if frac is Some { digits + 1 } else { digits };
                if let Some(f) = frac {
                    lemma_fraction_digit(f, digits, d);
                }
                lemma_skip_ws(s, t + 1);
                let t2 = skip_ws(s, t + 1);
                if t2 >= s.len() || (s[t2] != '.' && !numeric(s[t2])) {
                    if let Some(f) = f2 {
                        if w2 <= u32::MAX && g2 <= 9 {
                            lemma_normalized_wf(negative, w2, f, g2);
                        }
                    }
                } else {
                    lemma_number_loop(s, t2, negative, w2, f2, g2);
                }
            }
        }
    }
}

/// A value read from `p` ends after `p`, within the text, and is well-formed.
pub proof fn lemma_parse_value(s: Seq<char>, p: int)
    ensures
        parse_value(s, p) matches Ok((v, q)) ==> p < q <= s.len() && v.wf(),
    decreases s.len() - p, 0int,
{
    if 0 <= p <= s.len() {
        lemma_skip_ws(s, p);
        let t = skip_ws(s, p);
        if t < s.len() {
            let c = s[t];
            if c == '-' || numeric(c) {
                if s[t] == '-' {
                    lemma_number_loop(s, t + 1, true, 0, None, 0);
                } else {
                    lemma_number_loop(s, t, false, 0, None, 0);
                }
            } else if c == '{' {
                lemma_parse_object(s, t + 1, Seq::empty());
            } else if c == '[' {
                lemma_parse_array(s, t + 1, Seq::empty());
            } else if c == '"' {
                lemma_scan_string(s, t + 1, false);
            }
        }
    }
}

/// The rest of an array read from `p` ends after `p`, within the text, and, when the members
/// read so far are well-formed, is well-formed.
pub proof fn lemma_parse_array(s: Seq<char>, p: int, items: Seq<SpecValue>)
    ensures
        parse_array(s, p, items) matches Ok((v, q)) ==> p < q <= s.len()
            && ((forall|i: int| 0 <= i < items.len() ==> (#[trigger] items[i]).wf()) ==> v.wf()),
    decreases s.len() - p, 1int,
{
    if 0 <= p <= s.len() {
        lemma_skip_ws(s, p);
        let t = skip_ws(s, p);
        if t < s.len() && s[t] != ']' {
            lemma_parse_value(s, t);
            if let Ok((v, q)) = parse_value(s, t) {
                lemma_skip_ws(s, q);
                let t2 = skip_ws(s, q);
                let items2 = items.push(v);
                if t2 < s.len() {
                    if s[t2] == ',' {
                        lemma_parse_array(s, t2 + 1, items2);
                    } else if s[t2] == ']' {
                        lemma_parse_array(s, t2, items2);
                    }
                    if forall|i: int| 0 <= i < items.len() ==> (#[trigger] items[i]).wf() {
                        assert forall|i: int| 0 <= i < items2.len() implies (#[trigger] items2[i]).wf() by {
                            if i < items.len() {
                                assert(items2[i] == items[i]);
                            }
                        }
                    }
                }
            }
        } else if t < s.len() {
            lemma_items_wf(items, 0);
        }
    }
}

/// The rest of an object read from `p` ends after `p`, within the text, and, when the members
/// read so far are well-formed with ascending keys, is well-formed.
pub proof fn lemma_parse_object(s: Seq<char>, p: int, es: Seq<(Seq<char>, SpecValue)>)
    ensures
        parse_object(s, p, es) matches Ok((v, q)) ==> p < q <= s.len()
            && ((sorted_keys(key_seq(es)) && forall|i: int| 0 <= i < es.len() ==> (#[trigger] es[i]).1.wf()) ==> v.wf()),
    decreases s.len() - p, 1int,
{
    if 0 <= p <= s.len() {
        lemma_skip_ws(s, p);
        let t = skip_ws(s, p);
        if t < s.len() && s[t] != '}' {
            lemma_scan_string(s, t + 1, false);
            if let Some((key, q)) = scan_string(s, t + 1, false) {
                lemma_skip_ws(s, q);
                let t2 = skip_ws(s, q);
                if t2 < s.len() && s[t2] == ':' {
                    lemma_parse_value(s, t2 + 1);
                    if let Ok((v, q2)) = parse_value(s, t2 + 1) {
                        lemma_skip_ws(s, q2);
                        let t3 = skip_ws(s, q2);
                        let es2 = insert_entry(es, key, v);
                        if t3 < s.len() {
                            if s[t3] == ',' {
                                lemma_parse_object(s, t3 + 1, es2);
                            } else if s[t3] == '}' {
                                lemma_parse_object(s, t3, es2);
                            }
                            if sorted_keys(key_seq(es)) && forall|i: int| 0 <= i < es.len() ==> (#[trigger] es[i]).1.wf() {
                                lemma_insert_entry_sorted(es, key, v);
                                lemma_insert_entry_all(es, key, v, |x: SpecValue| x.wf());
                            }
                        }
                    }
                }
            }
        }
    }
}

} // verus!

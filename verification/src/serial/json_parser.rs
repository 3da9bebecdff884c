//! The JSON parser: reads an indirect `Value` from JSON text (see `json_spec`).
use vstd::prelude::*;
use crate::text::{chars_of, string_from_chars, push_str, push_decimal, decimal_chars};
use crate::schema::decimal::{Decimal, pow10, lemma_pow10_small, lemma_pow10_monotone};
use crate::schema::entries::{string_keys, sorted_keys, insert_sorted, lemma_insert_entry_sorted};
use crate::schema::primitives::{Value, SpecValue, value_list_view, value_entries_view, lemma_value_keys, lemma_value_entries_insert};
use super::errors::SerialError;
use super::json_spec::{
    is_ws, skip_ws, lemma_skip_ws, scan_string, lemma_scan_string, parse_raw_string, normalized,
    number_loop, number_result, parse_number, parse_value, parse_array, parse_object, next_token,
    after_token, lemma_parse_value, is_numeric, numeric, lemma_fraction_digit,
    ParseFault, fault, fault_position, end_fault, fault_text, saturated,
};

verus! {

/// A recursive-descent JSON reader over the characters of its input. It reads one token of
/// lookahead (`peeked`) and counts the characters it has taken (`position`) for its messages.
pub struct JsonParser {
    position: u32,
    input: Vec<char>,
    index: usize,
    peeked: Option<Option<char>>,
}

impl JsonParser {
    /// The characters being read.
    pub closed spec fn text(&self) -> Seq<char> {
        self.input@
    }

    /// How far the reader has read: the position of the peeked token, if one is held, or of
    /// the next character it would take.
    pub closed spec fn cursor(&self) -> int {
        match self.peeked {
            Some(Some(_)) => self.index - 1,
            _ => self.index as int,
        }
    }

    /// The number of characters the reader has taken (saturating at `u32::MAX`).
    pub closed spec fn position_count(&self) -> nat {
        self.position as nat
    }

    /// Whether the reader holds a token it has peeked at.
    pub closed spec fn holds_peek(&self) -> bool {
        self.peeked is Some
    }

    /// The position of the next character the reader would take from its input.
    pub closed spec fn offset(&self) -> int {
        self.index as int
    }

    /// The position the reader reports: the characters it has taken, and one more while it
    /// holds the end of the input as its peeked token.
    pub closed spec fn reported(&self) -> int {
        self.index + if self.peeked == Some(None::<char>) { 1int } else { 0int }
    }

    /// The reader's count of positions agrees with what it has taken.
    pub closed spec fn counted(&self) -> bool {
        self.position as int == saturated(self.reported())
    }

    /// The reader's state is consistent with its input.
    pub closed spec fn inv(&self) -> bool {
        &&& self.index <= self.input@.len()
        &&& match self.peeked {
            Some(Some(c)) => self.index >= 1 && self.input@[self.index - 1] == c && !is_ws(c),
            Some(None) => self.index == self.input@.len(),
            None => true,
        }
    }

    /// A reader at the start of `input`.
    pub fn new(input: &str) -> (r: Self)
        ensures
            r.inv(),
            r.text() == input@,
            r.cursor() == 0,
            r.counted(),
    {
        Self { input: chars_of(input), position: 0, index: 0, peeked: None }
    }

    /// A parse error naming the reader's position.
    pub fn error(&self, message: &str) -> (r: SerialError)
        ensures
            r matches SerialError::Parse(m) && m@ == "Syntax error at position "@ + decimal_chars(self.position_count()) + ": "@
                + message@,
    {
        let mut text: Vec<char> = Vec::new();
        push_str(&mut text, "Syntax error at position ");
        push_decimal(&mut text, self.position as u64);
        push_str(&mut text, ": ");
        push_str(&mut text, message);
        SerialError::Parse(string_from_chars(text.as_slice()))
    }

    /// Takes the next character, or with `incl_ws` false the next non-whitespace character.
    pub fn raw_consume(&mut self, incl_ws: bool) -> (r: Option<char>)
        requires
            old(self).inv(),
            !old(self).holds_peek(),
        ensures
            final(self).inv(),
            !final(self).holds_peek(),
            final(self).text() == old(self).text(),
            incl_ws ==> (if old(self).offset() < old(self).text().len() {
                r == Some(old(self).text()[old(self).offset() as int]) && final(self).offset() == old(self).offset() + 1
            } else {
                r is None && final(self).offset() == old(self).offset()
            }),
            !incl_ws ==> r == next_token(old(self).text(), old(self).offset() as int) && final(self).offset() == after_token(
                old(self).text(),
                old(self).offset() as int,
            ),
            final(self).position_count() == saturated(
                old(self).position_count() + (final(self).offset() - old(self).offset()) + if r is None { 1int } else { 0int },
            ),
    {
        proof {
            lemma_skip_ws(self.input@, self.index as int);
        }
        loop
            invariant
                self.inv(),
                self.peeked is None,
                self.input@ == old(self).input@,
                old(self).index <= self.index <= self.input@.len(),
                incl_ws ==> self.index == old(self).index,
                !incl_ws ==> skip_ws(self.input@, self.index as int) == skip_ws(self.input@, old(self).index as int),
                self.position as int == saturated(old(self).position + (self.index - old(self).index)),
            decreases self.input@.len() - self.index,
        {
            self.position = self.position.saturating_add(1);
            if self.index >= self.input.len() {
                return None;
            }
            let token = self.input[self.index];
            self.index = self.index + 1;
            if incl_ws || (token != ' ' && token != '\n' && token != '\r') {
                return Some(token);
            }
        }
    }

    /// The next token without taking it.
    pub fn peek_optional(&mut self) -> (r: Option<char>)
        requires
            old(self).inv(),
        ensures
            final(self).inv(),
            final(self).text() == old(self).text(),
            r == next_token(old(self).text(), old(self).cursor()),
            final(self).cursor() == skip_ws(old(self).text(), old(self).cursor()),
            final(self).reported() == fault_position(old(self).text(), old(self).cursor()),
            old(self).counted() ==> final(self).counted(),
    {
        proof {
            lemma_skip_ws(self.input@, self.cursor());
        }
        if self.peeked.is_none() {
            let c = self.raw_consume(false);
            self.peeked = Some(c);
        }
        match self.peeked {
            Some(c) => c,
            None => None,
        }
    }

    /// The next token, or an error at the end of the input.
    pub fn peek(&mut self) -> (r: Result<char, SerialError>)
        requires
            old(self).inv(),
        ensures
            final(self).inv(),
            final(self).text() == old(self).text(),
            match next_token(old(self).text(), old(self).cursor()) {
                Some(c) => r == Ok::<char, SerialError>(c) && final(self).cursor() == skip_ws(old(self).text(), old(self).cursor())
                    && final(self).reported() == fault_position(old(self).text(), old(self).cursor())
                    && (old(self).counted() ==> final(self).counted()),
                None => r matches Err(SerialError::Parse(m))
                    && (old(self).counted() ==> m@ == fault_text(end_fault("Unterminated value"@, old(self).text()))),
            },
    {
        match self.peek_optional() {
            Some(c) => Ok(c),
            None => Err(self.error("Unterminated value")),
        }
    }

    /// Takes the next token.
    pub fn next_optional(&mut self) -> (r: Option<char>)
        requires
            old(self).inv(),
        ensures
            final(self).inv(),
            !final(self).holds_peek(),
            final(self).text() == old(self).text(),
            r == next_token(old(self).text(), old(self).cursor()),
            final(self).cursor() == after_token(old(self).text(), old(self).cursor()),
            r is Some ==> final(self).reported() == fault_position(old(self).text(), old(self).cursor())
                && (old(self).counted() ==> final(self).counted()),
            r is None ==> (old(self).counted() ==> final(self).position_count() == saturated(old(self).text().len() + 1int)),
    {
        proof {
            lemma_skip_ws(self.input@, self.cursor());
        }
        if let Some(next) = self.peeked {
            self.peeked = None;
            next
        } else {
            self.raw_consume(false)
        }
    }

    /// Takes the next token, or gives an error at the end of the input.
    pub fn next(&mut self) -> (r: Result<char, SerialError>)
        requires
            old(self).inv(),
        ensures
            final(self).inv(),
            !final(self).holds_peek(),
            final(self).text() == old(self).text(),
            match next_token(old(self).text(), old(self).cursor()) {
                Some(c) => r == Ok::<char, SerialError>(c) && final(self).cursor() == after_token(old(self).text(), old(self).cursor())
                    && final(self).reported() == fault_position(old(self).text(), old(self).cursor())
                    && (old(self).counted() ==> final(self).counted()),
                None => r matches Err(SerialError::Parse(m))
                    && (old(self).counted() ==> m@ == fault_text(end_fault("Unterminated value"@, old(self).text()))),
            },
    {
        match self.next_optional() {
            Some(c) => Ok(c),
            None => Err(self.error("Unterminated value")),
        }
    }

    /// Reads a string: takes the next token as its opening, then every character up to the
    /// closing quote (see `scan_string`).
    pub fn raw_parse_string(&mut self) -> (r: Result<String, SerialError>)
        requires
            old(self).inv(),
        ensures
            final(self).inv(),
            final(self).text() == old(self).text(),
            match parse_raw_string(old(self).text(), old(self).cursor()) {
                Some((text, q)) => r matches Ok(rs) && rs@ == text && final(self).cursor() == q
                    && (old(self).counted() ==> final(self).counted()),
                None => r matches Err(SerialError::Parse(m)) && (old(self).counted() ==> m@ == fault_text(end_fault(
                    if next_token(old(self).text(), old(self).cursor()) is Some { "Unterminated string"@ } else { "Unterminated value"@ },
                    old(self).text(),
                ))),
            },
    {
        let mut is_escape = false;
        let mut parsed: Vec<char> = Vec::new();
        let ghost s = self.input@;
        proof {
            lemma_skip_ws(s, self.cursor());
        }
        self.next()?;
        let ghost start = self.index as int;
        loop
            invariant_except_break
                parse_raw_string(s, old(self).cursor()) == match scan_string(s, self.index as int, is_escape) {
                    Some((rest, q)) => Some((parsed@ + rest, q)),
                    None => None,
                },
            invariant
                self.inv(),
                self.peeked is None,
                self.input@ == s,
                s == old(self).input@,
                start <= self.index <= s.len(),
                next_token(s, old(self).cursor()) is Some,
                old(self).counted() ==> self.counted(),
            ensures
                parse_raw_string(s, old(self).cursor()) == Some((parsed@, self.index as int)),
            decreases s.len() - self.index,
        {
            let ghost i = self.index as int;
            let token = match self.raw_consume(true) {
                Some(t) => t,
                None => {
                    return Err(self.error("Unterminated string"));
                },
            };
            if token == '"' && !is_escape {
                assert(parsed@ + Seq::<char>::empty() =~= parsed@);
                break;
            }
            if token == '\\' {
                is_escape = !is_escape;
            }
            let ghost before = parsed@;
            parsed.push(token);
            proof {
                if let Some((rest, q)) = scan_string(s, i + 1, is_escape) {
                    assert(before + (seq![token] + rest) =~= parsed@ + rest);
                }
            }
        }
        Ok(string_from_chars(parsed.as_slice()))
    }

    /// Reads a number (see `parse_number`).
    fn parse_number(&mut self) -> (r: Result<Value, SerialError>)
        requires
            old(self).inv(),
        ensures
            final(self).inv(),
            final(self).input@ == old(self).input@,
            match parse_number(old(self).input@, skip_ws(old(self).input@, old(self).cursor())) {
                Ok((v, q)) => r matches Ok(rv) && rv@ == v && final(self).cursor() == q
                    && (old(self).counted() ==> final(self).counted()),
                Err(f) => r matches Err(SerialError::Parse(m)) && (old(self).counted() ==> m@ == fault_text(f)),
            },
    {
        let ghost s = self.input@;
        let ghost t0 = skip_ws(s, old(self).cursor());
        proof {
            lemma_skip_ws(s, old(self).cursor());
        }
        let mut whole: u32 = 0;
        let mut negative = false;
        let mut digits: u32 = 0;
        let mut fractional: Option<u32> = None;
        let first_token = self.peek()?;
        if first_token == '-' {
            negative = true;
            self.next()?;
        }
        proof {
            lemma_pow10_small();
        }
        loop
            invariant_except_break
                parse_number(s, t0) == number_loop(s, self.cursor(), negative, whole as nat,
                    match fractional { Some(f) => Some(f as nat), None => None }, digits as nat),
            invariant
                self.inv(),
                self.input@ == s,
                s == old(self).input@,
                t0 == skip_ws(s, old(self).cursor()),
                0 <= self.cursor() <= s.len(),
                digits <= 9,
                fractional matches Some(f) ==> f < pow10(digits as nat),
                fractional is None ==> digits == 0,
                pow10(9) == 1000000000,
                old(self).counted() ==> self.counted(),
            ensures
                parse_number(s, t0) == number_result(s, negative, whole as nat,
                    match fractional { Some(f) => Some(f as nat), None => None }, digits as nat, self.cursor()),
                self.reported() == fault_position(s, self.cursor()),
            decreases s.len() - self.cursor(),
        {
            let ghost q = self.cursor();
            let ghost fr = match fractional { Some(f) => Some(f as nat), None => None::<nat> };
            proof {
                lemma_skip_ws(s, q);
            }
            let token = self.next()?;
            let ghost t = skip_ws(s, q);
            proof {
                lemma_skip_ws(s, t + 1);
            }
            if token == '.' {
                if fractional.is_some() {
                    return Err(self.error("Repeat decimal token"));
                }
                fractional = Some(0);
                proof {
                    lemma_pow10_monotone(0, digits as nat);
                }
                continue;
            }
            let part: u32 = if '0' <= token && token <= '9' {
                (token as u32) - ('0' as u32)
            } else {
                return Err(self.error("Invalid token for number"));
            };
            if let Some(current) = fractional {
                if digits >= 9 {
                    return Err(self.error("Numeric overflow"));
                }
                proof {
                    lemma_fraction_digit(current as nat, digits as nat, part as nat);
                    lemma_pow10_monotone((digits + 1) as nat, 9);
                }
                fractional = Some(current * 10 + part);
                digits = digits + 1;
            } else {
                if whole > (u32::MAX - part) / 10 {
                    proof {
                        assert(whole * 10 + part > u32::MAX) by (nonlinear_arith)
                            requires
                                whole > (u32::MAX - part) / 10,
                                part <= 9,
                        ;
                    }
                    return Err(self.error("Numeric overflow"));
                }
                assert(whole * 10 + part <= u32::MAX) by (nonlinear_arith)
                    requires
                        whole <= (u32::MAX - part) / 10,
                        part <= 9,
                ;
                whole = whole * 10 + part;
            }
            let maybe_next_token = self.peek_optional();
            match maybe_next_token {
                Some(next_token) => {
                    if next_token != '.' && !is_numeric(next_token) {
                        break;
                    }
                },
                None => {
                    break;
                },
            }
        }
        if let Some(frac) = fractional {
            let d = normalize(negative, whole, frac, digits);
            Ok(Value::Float64(d))
        } else if negative {
            if whole > 2147483647 {
                Err(self.error("Numeric overflow"))
            } else {
                let signed: i32 = whole as i32;
                Ok(Value::Int32(-signed))
            }
        } else {
            Ok(Value::Uint32(whole))
        }
    }
}

/// The decimal `±(whole + frac / 10^digits)` with trailing zero digits of the fraction dropped.
fn normalize(negative: bool, whole: u32, frac: u32, digits: u32) -> (r: Decimal)
    ensures
        r == normalized(negative, whole as nat, frac as nat, digits as nat),
{
    let mut f = frac;
    let mut g = digits;
    while g > 0 && f % 10 == 0
        invariant
            normalized(negative, whole as nat, frac as nat, digits as nat) == normalized(negative, whole as nat, f as nat, g as nat),
        decreases g,
    {
        f = f / 10;
        g = g - 1;
    }
    Decimal { negative, whole, fraction: f, fraction_digits: g }
}

} // verus!

verus! {

impl JsonParser {
    /// Reads a string value.
    fn parse_string(&mut self) -> (r: Result<Value, SerialError>)
        requires
            old(self).inv(),
        ensures
            final(self).inv(),
            final(self).input@ == old(self).input@,
            match parse_raw_string(old(self).input@, old(self).cursor()) {
                Some((text, q)) => r matches Ok(rv) && rv@ == SpecValue::String(text) && final(self).cursor() == q
                    && (old(self).counted() ==> final(self).counted()),
                None => r matches Err(SerialError::Parse(m)) && (old(self).counted() ==> m@ == fault_text(end_fault(
                    if next_token(old(self).text(), old(self).cursor()) is Some { "Unterminated string"@ } else { "Unterminated value"@ },
                    old(self).text(),
                ))),
            },
    {
        Ok(Value::String(self.raw_parse_string()?))
    }

    /// Reads an object whose `{` is the next token (see `parse_object`).
    fn parse_object(&mut self) -> (r: Result<Value, SerialError>)
        requires
            old(self).inv(),
            next_token(old(self).input@, old(self).cursor()) == Some('{'),
        ensures
            final(self).inv(),
            final(self).input@ == old(self).input@,
            match parse_object(old(self).input@, skip_ws(old(self).input@, old(self).cursor()) + 1, Seq::empty()) {
                Ok((v, q)) => r matches Ok(rv) && rv@ == v && final(self).cursor() == q
                    && (old(self).counted() ==> final(self).counted()),
                Err(f) => r matches Err(SerialError::Parse(m)) && (old(self).counted() ==> m@ == fault_text(f)),
            },
        decreases old(self).text().len() - skip_ws(old(self).text(), old(self).cursor()) - 1, 1int,
    {
        let ghost s = self.input@;
        let ghost c0 = self.cursor();
        proof {
            lemma_skip_ws(s, c0);
        }
        let mut result: Vec<(String, Value)> = Vec::new();
        self.next()?;
        let ghost target = parse_object(s, skip_ws(s, c0) + 1, Seq::empty());
        assert(value_entries_view(result@) =~= Seq::<(Seq<char>, SpecValue)>::empty());
        loop
            invariant_except_break
                target == parse_object(s, self.cursor(), value_entries_view(result@)),
            invariant
                self.inv(),
                self.input@ == s,
                s == old(self).input@,
                c0 == old(self).cursor(),
                target == parse_object(s, skip_ws(s, c0) + 1, Seq::empty()),
                skip_ws(s, c0) < self.cursor() <= s.len(),
                sorted_keys(string_keys(result@)),
                old(self).counted() ==> self.counted(),
            ensures
                target == Ok::<(SpecValue, int), ParseFault>((SpecValue::Dict(value_entries_view(result@)), self.cursor())),
            decreases s.len() - self.cursor(),
        {
            let ghost p = self.cursor();
            let ghost es = value_entries_view(result@);
            proof {
                lemma_skip_ws(s, p);
                lemma_value_keys(result@);
            }
            let token = self.peek()?;
            let ghost t = skip_ws(s, p);
            if token == '}' {
                self.next()?;
                break;
            }
            proof {
                lemma_scan_string(s, t + 1, false);
            }
            let key = self.raw_parse_string()?;
            let ghost q = self.cursor();
            proof {
                lemma_skip_ws(s, q);
            }
            if self.next()? != ':' {
                return Err(self.error("Object key without trailing :"));
            }
            let ghost t2 = skip_ws(s, q);
            proof {
                lemma_parse_value(s, t2 + 1);
            }
            let value = self.parse()?;
            let ghost q2 = self.cursor();
            proof {
                lemma_skip_ws(s, q2);
                lemma_value_entries_insert(result@, key, value);
                lemma_insert_entry_sorted(es, key@, value@);
            }
            insert_sorted(&mut result, key, value);
            proof {
                lemma_value_keys(result@);
            }
            let next_token = self.peek()?;
            if next_token == ',' {
                self.next()?;
            } else if next_token != '}' {
                return Err(self.error("Invalid token after object value position"));
            }
        }
        Ok(Value::Dict(result))
    }

    /// Reads an array whose `[` is the next token (see `parse_array`).
    fn parse_array(&mut self) -> (r: Result<Value, SerialError>)
        requires
            old(self).inv(),
            next_token(old(self).input@, old(self).cursor()) == Some('['),
        ensures
            final(self).inv(),
            final(self).input@ == old(self).input@,
            match parse_array(old(self).input@, skip_ws(old(self).input@, old(self).cursor()) + 1, Seq::empty()) {
                Ok((v, q)) => r matches Ok(rv) && rv@ == v && final(self).cursor() == q
                    && (old(self).counted() ==> final(self).counted()),
                Err(f) => r matches Err(SerialError::Parse(m)) && (old(self).counted() ==> m@ == fault_text(f)),
            },
        decreases old(self).text().len() - skip_ws(old(self).text(), old(self).cursor()) - 1, 1int,
    {
        let ghost s = self.input@;
        let ghost c0 = self.cursor();
        proof {
            lemma_skip_ws(s, c0);
        }
        let mut result: Vec<Value> = Vec::new();
        self.next()?;
        let ghost target = parse_array(s, skip_ws(s, c0) + 1, Seq::empty());
        assert(value_list_view(result@) =~= Seq::<SpecValue>::empty());
        loop
            invariant_except_break
                target == parse_array(s, self.cursor(), value_list_view(result@)),
            invariant
                self.inv(),
                self.input@ == s,
                s == old(self).input@,
                c0 == old(self).cursor(),
                target == parse_array(s, skip_ws(s, c0) + 1, Seq::empty()),
                skip_ws(s, c0) < self.cursor() <= s.len(),
                old(self).counted() ==> self.counted(),
            ensures
                target == Ok::<(SpecValue, int), ParseFault>((SpecValue::List(value_list_view(result@)), self.cursor())),
            decreases s.len() - self.cursor(),
        {
            let ghost p = self.cursor();
            proof {
                lemma_skip_ws(s, p);
            }
            let token = self.peek()?;
            let ghost t = skip_ws(s, p);
            if token == ']' {
                self.next()?;
                break;
            }
            proof {
                lemma_parse_value(s, t);
            }
            let value = self.parse()?;
            let ghost q = self.cursor();
            proof {
                lemma_skip_ws(s, q);
            }
            let ghost before = value_list_view(result@);
            result.push(value);
            assert(value_list_view(result@) =~= before.push(value@));
            let next_token = self.peek()?;
            if next_token == ',' {
                self.next()?;
            } else if next_token != ']' {
                return Err(self.error("Invalid token after array element position"));
            }
        }
        Ok(Value::List(result))
    }

    /// Reads the value at the reader's position (see `parse_value`); a failure gives the
    /// `Parse` error naming its fault and the reader's position (see `fault_text`).
    pub fn parse(&mut self) -> (r: Result<Value, SerialError>)
        requires
            old(self).inv(),
        ensures
            final(self).inv(),
            final(self).text() == old(self).text(),
            match parse_value(old(self).text(), old(self).cursor()) {
                Ok((v, q)) => r matches Ok(rv) && rv@ == v && final(self).cursor() == q
                    && (old(self).counted() ==> final(self).counted()),
                Err(f) => r matches Err(SerialError::Parse(m)) && (old(self).counted() ==> m@ == fault_text(f)),
            },
        decreases old(self).text().len() - old(self).cursor(), 0int,
    {
        let ghost s = self.input@;
        proof {
            lemma_skip_ws(s, self.cursor());
        }
        let next_token = self.peek()?;
        if next_token == '-' || is_numeric(next_token) {
            return self.parse_number();
        }
        if next_token == '{' {
            self.parse_object()
        } else if next_token == '[' {
            self.parse_array()
        } else if next_token == '"' {
            self.parse_string()
        } else {
            Err(self.error("Invalid token in value position"))
        }
    }
}

} // verus!

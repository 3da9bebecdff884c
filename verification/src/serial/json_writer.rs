//! The JSON writer: renders an indirect `Value` as compact JSON text.
use vstd::prelude::*;
use crate::text::{digit_char, decimal_chars, digit_to_char, push_decimal, push_str, chars_of, chars_lt, string_from_chars, seq_lt, lemma_seq_lt_trichotomy};
use crate::schema::entries::{key_seq, sorted_keys};
use crate::schema::decimal::Decimal;
use crate::schema::primitives::{Value, SpecValue, value_list_view, value_entries_view};
use super::errors::SerialError;

verus! {

/// The characters of a string body with each `"` preceded by a backslash.
pub open spec fn escaped(s: Seq<char>) -> Seq<char>
    decreases s.len(),
{
    if s.len() == 0 {
        Seq::empty()
    } else if s.last() == '"' {
        escaped(s.drop_last()) + seq!['\\', '"']
    } else {
        escaped(s.drop_last()).push(s.last())
    }
}

/// A quoted string: quotes escaped, and one more backslash when the text ends with a backslash.
pub open spec fn written_string(s: Seq<char>) -> Seq<char> {
    seq!['"'] + escaped(s) + (if s.len() > 0 && s.last() == '\\' { seq!['\\'] } else { Seq::empty() })
        + seq!['"']
}

/// The last `g` decimal digits of `f`, with leading zeros.
pub open spec fn padded_digits(f: nat, g: nat) -> Seq<char>
    decreases g,
{
    if g == 0 {
        Seq::empty()
    } else {
        padded_digits(f / 10, (g - 1) as nat).push(digit_char(f % 10))
    }
}

/// A decimal as written: its sign, whole part, and (when it has fraction digits) a point and
/// exactly `fraction_digits` digits.
pub open spec fn written_decimal(d: Decimal) -> Seq<char> {
    (if d.negative { seq!['-'] } else { Seq::empty() }) + decimal_chars(d.whole as nat) + (if d.fraction_digits
        > 0 {
        seq!['.'] + padded_digits(d.fraction as nat, d.fraction_digits as nat)
    } else {
        Seq::empty()
    })
}

/// A signed integer as written.
pub open spec fn written_int(n: i32) -> Seq<char> {
    if n < 0 {
        seq!['-'] + decimal_chars((-n) as nat)
    } else {
        decimal_chars(n as nat)
    }
}

/// Position `i` of `es` placed into the order `ord` of positions: before the first position
/// whose key the key at `i` precedes.
pub open spec fn insert_by_key(es: Seq<(Seq<char>, SpecValue)>, ord: Seq<int>, i: int) -> Seq<int>
    decreases ord.len(),
{
    if ord.len() == 0 {
        seq![i]
    } else if seq_lt(es[i].0, es[ord[0]].0) {
        seq![i] + ord
    } else {
        seq![ord[0]] + insert_by_key(es, ord.drop_first(), i)
    }
}

/// The first `n` positions of `es` in ascending key order, positions with equal keys in the
/// order they are held.
pub open spec fn key_order(es: Seq<(Seq<char>, SpecValue)>, n: int) -> Seq<int>
    decreases n,
{
    if n <= 0 {
        Seq::empty()
    } else {
        insert_by_key(es, key_order(es, n - 1), n - 1)
    }
}

/// Placing `i` before the first position whose key its key precedes, at `j`, is inserting it
/// there.
pub proof fn lemma_insert_by_key(es: Seq<(Seq<char>, SpecValue)>, ord: Seq<int>, i: int, j: int)
    requires
        0 <= j <= ord.len(),
        forall|k: int| 0 <= k < j ==> !seq_lt(es[i].0, #[trigger] es[ord[k]].0),
        j < ord.len() ==> seq_lt(es[i].0, es[ord[j]].0),
    ensures
        insert_by_key(es, ord, i) == ord.insert(j, i),
    decreases ord.len(),
{
    if ord.len() == 0 {
        assert(ord.insert(j, i) =~= seq![i]);
    } else if j == 0 {
        assert(ord.insert(0, i) =~= seq![i] + ord);
    } else {
        let rest = ord.drop_first();
        assert forall|k: int| 0 <= k < j - 1 implies !seq_lt(es[i].0, #[trigger] es[rest[k]].0) by {
            assert(rest[k] == ord[k + 1]);
        }
        assert(!seq_lt(es[i].0, es[ord[0]].0));
        lemma_insert_by_key(es, rest, i, j - 1);
        assert(seq![ord[0]] + rest.insert(j - 1, i) =~= ord.insert(j, i));
    }
}

/// With keys already ascending, the key order keeps every position where it is.
pub proof fn lemma_key_order_sorted(es: Seq<(Seq<char>, SpecValue)>, n: int)
    requires
        sorted_keys(key_seq(es)),
        0 <= n <= es.len(),
    ensures
        key_order(es, n) == Seq::new(n as nat, |k: int| k),
    decreases n,
{
    if n > 0 {
        lemma_key_order_sorted(es, n - 1);
        let ord = key_order(es, n - 1);
        assert forall|k: int| 0 <= k < n - 1 implies !seq_lt(es[n - 1].0, #[trigger] es[ord[k]].0) by {
            assert(ord[k] == k);
            assert(key_seq(es)[k] == es[k].0);
            assert(key_seq(es)[n - 1] == es[n - 1].0);
            lemma_seq_lt_trichotomy(es[k].0, es[n - 1].0);
        }
        lemma_insert_by_key(es, ord, n - 1, n - 1);
        assert(ord.insert(n - 1, n - 1) =~= Seq::new(n as nat, |k: int| k));
    }
}

/// The JSON text of a value. Map members are written in ascending key order (see `key_order`).
pub open spec fn json_write(v: SpecValue) -> Seq<char>
    decreases v, 0int,
{
    match v {
        SpecValue::Null => "null"@,
        SpecValue::Bool(b) => if b { "true"@ } else { "false"@ },
        SpecValue::Uint32(n) => decimal_chars(n as nat),
        SpecValue::Int32(n) => written_int(n),
        SpecValue::Float64(d) => written_decimal(d),
        SpecValue::String(s) => written_string(s),
        SpecValue::List(ms) => seq!['['] + written_items(ms, 0) + seq![']'],
        SpecValue::Dict(es) => seq!['{'] + written_ordered(es, key_order(es, es.len() as int), 0) + seq!['}'],
    }
}

/// The list members from position `i` on, separated by commas.
pub open spec fn written_items(ms: Seq<SpecValue>, i: int) -> Seq<char>
    decreases ms, ms.len() - i,
{
    if i < 0 || i >= ms.len() {
        Seq::empty()
    } else {
        json_write(ms[i]) + (if i != ms.len() - 1 { seq![','] } else { Seq::empty() }) + written_items(ms, i + 1)
    }
}

/// The map members from position `i` on, each as `key:value`, separated by commas.
pub open spec fn written_members(es: Seq<(Seq<char>, SpecValue)>, i: int) -> Seq<char>
    decreases es, es.len() - i,
{
    if i < 0 || i >= es.len() {
        Seq::empty()
    } else {
        written_string(es[i].0) + seq![':'] + json_write(es[i].1) + (if i != es.len() - 1 { seq![','] } else { Seq::empty() })
            + written_members(es, i + 1)
    }
}

/// The map members at the positions `ord` from index `i` on, each as `key:value`, separated
/// by commas.
pub open spec fn written_ordered(es: Seq<(Seq<char>, SpecValue)>, ord: Seq<int>, i: int) -> Seq<char>
    decreases es, ord.len() - i,
{
    if i < 0 || i >= ord.len() || !(0 <= ord[i] < es.len()) {
        Seq::empty()
    } else {
        written_string(es[ord[i]].0) + seq![':'] + json_write(es[ord[i]].1) + (if i != ord.len() - 1 { seq![','] } else { Seq::empty() })
            + written_ordered(es, ord, i + 1)
    }
}

/// Members written in the order they are held are written as `written_members` does.
pub proof fn lemma_written_in_place(es: Seq<(Seq<char>, SpecValue)>, i: int)
    requires
        0 <= i <= es.len(),
    ensures
        written_ordered(es, Seq::new(es.len(), |k: int| k), i) == written_members(es, i),
    decreases es.len() - i,
{
    if i < es.len() {
        lemma_written_in_place(es, i + 1);
    }
}

/// Appends the last `g` decimal digits of `f`, with leading zeros.
fn push_padded(out: &mut Vec<char>, f: u32, g: u32)
    ensures
        final(out)@ == old(out)@ + padded_digits(f as nat, g as nat),
    decreases g,
{
    if g > 0 {
        push_padded(out, f / 10, g - 1);
        out.push(digit_to_char(f % 10));
    } else {
        assert(old(out)@ + Seq::<char>::empty() =~= old(out)@);
    }
}

/// A writer of one value's JSON text.
pub struct JsonWriter<'wr> {
    output: Vec<char>,
    input: &'wr Value,
}

impl<'wr> JsonWriter<'wr> {
    /// The text written so far.
    pub closed spec fn written(&self) -> Seq<char> {
        self.output@
    }

    /// The value to write.
    pub closed spec fn source(&self) -> SpecValue {
        self.input@
    }

    /// A writer of `input` with nothing written yet.
    pub fn new(input: &'wr Value) -> (r: Self)
        ensures
            r.written() == Seq::<char>::empty(),
            r.source() == input@,
    {
        Self { input, output: Vec::new() }
    }

    /// Appends text as it is.
    fn raw_append(&mut self, string: &str)
        ensures
            final(self).output@ == old(self).output@ + string@,
            final(self).input == old(self).input,
    {
        push_str(&mut self.output, string)
    }

    /// Appends a quoted string (see `written_string`).
    fn append_string(&mut self, string: &str)
        ensures
            final(self).output@ == old(self).output@ + written_string(string@),
            final(self).input == old(self).input,
    {
        let chars = chars_of(string);
        self.output.push('"');
        let ghost start = self.output@;
        let mut did_escape = false;
        let mut i: usize = 0;
        while i < chars.len()
            invariant
                i <= chars.len(),
                chars@ == string@,
                self.input == old(self).input,
                start == old(self).output@.push('"'),
                self.output@ == start + escaped(chars@.subrange(0, i as int)),
                did_escape == (i > 0 && chars@[i - 1] == '\\'),
            decreases chars.len() - i,
        {
            let token = chars[i];
            let ghost pre = chars@.subrange(0, i as int);
            let ghost cur = chars@.subrange(0, i + 1);
            assert(cur.drop_last() =~= pre);
            assert(cur.last() == token);
            if token == '"' {
                self.output.push('\\');
            }
            self.output.push(token);
            proof {
                if token == '"' {
                    assert(self.output@ =~= start + escaped(cur));
                } else {
                    assert(self.output@ =~= start + escaped(cur));
                }
            }
            did_escape = token == '\\';
            i = i + 1;
        }
        assert(chars@.subrange(0, i as int) =~= chars@);
        if did_escape {
            self.output.push('\\');
        }
        self.output.push('"');
        assert(self.output@ =~= old(self).output@ + written_string(string@));
    }

    /// Appends an integer.
    fn append_int(&mut self, n: i32)
        ensures
            final(self).output@ == old(self).output@ + written_int(n),
            final(self).input == old(self).input,
    {
        if n < 0 {
            self.output.push('-');
            let m: i64 = -(n as i64);
            push_decimal(&mut self.output, m as u64);
            assert(self.output@ =~= old(self).output@ + written_int(n));
        } else {
            push_decimal(&mut self.output, n as u64);
        }
    }

    /// Appends a decimal number (see `written_decimal`).
    fn append_decimal(&mut self, d: &Decimal)
        ensures
            final(self).output@ == old(self).output@ + written_decimal(*d),
            final(self).input == old(self).input,
    {
        if d.negative {
            self.output.push('-');
        }
        push_decimal(&mut self.output, d.whole as u64);
        if d.fraction_digits > 0 {
            self.output.push('.');
            push_padded(&mut self.output, d.fraction, d.fraction_digits);
        }
        assert(self.output@ =~= old(self).output@ + written_decimal(*d));
    }

    /// Appends a map's members in ascending key order (see `key_order` and `written_ordered`).
    fn append_object(&mut self, contents: &Vec<(String, Value)>)
        ensures
            final(self).output@ == old(self).output@ + seq!['{'] + written_ordered(
                value_entries_view(contents@),
                key_order(value_entries_view(contents@), contents@.len() as int),
                0,
            ) + seq!['}'],
            final(self).input == old(self).input,
        decreases contents,
    {
        let ghost es = value_entries_view(contents@);
        let mut keys: Vec<Vec<char>> = Vec::new();
        let mut k: usize = 0;
        while k < contents.len()
            invariant
                k <= contents.len(),
                es == value_entries_view(contents@),
                keys@.len() == k,
                forall|x: int| 0 <= x < k ==> (#[trigger] keys@[x])@ == es[x].0,
            decreases contents.len() - k,
        {
            assert(es[k as int].0 == contents@[k as int].0@);
            keys.push(chars_of(contents[k].0.as_str()));
            k = k + 1;
        }
        let mut order: Vec<usize> = Vec::new();
        let mut i: usize = 0;
        assert(Seq::new(order@.len(), |x: int| order@[x] as int) =~= key_order(es, 0));
        while i < contents.len()
            invariant
                i <= contents.len(),
                es == value_entries_view(contents@),
                keys@.len() == contents.len(),
                forall|x: int| 0 <= x < contents.len() ==> (#[trigger] keys@[x])@ == es[x].0,
                order@.len() == i,
                forall|x: int| 0 <= x < order@.len() ==> (#[trigger] order@[x]) < i,
                Seq::new(order@.len(), |x: int| order@[x] as int) == key_order(es, i as int),
            decreases contents.len() - i,
        {
            let ghost ord = Seq::new(order@.len(), |x: int| order@[x] as int);
            let mut j: usize = 0;
            while j < order.len() && !chars_lt(&keys[i], &keys[order[j]])
                invariant
                    j <= order@.len(),
                    i < contents.len(),
                    keys@.len() == contents.len(),
                    forall|x: int| 0 <= x < contents.len() ==> (#[trigger] keys@[x])@ == es[x].0,
                    forall|x: int| 0 <= x < order@.len() ==> (#[trigger] order@[x]) < i,
                    ord == Seq::new(order@.len(), |x: int| order@[x] as int),
                    forall|x: int| 0 <= x < j ==> !seq_lt(es[i as int].0, #[trigger] es[ord[x]].0),
                decreases order@.len() - j,
            {
                j = j + 1;
            }
            proof {
                lemma_insert_by_key(es, ord, i as int, j as int);
            }
            order.insert(j, i);
            assert(Seq::new(order@.len(), |x: int| order@[x] as int) =~= ord.insert(j as int, i as int));
            i = i + 1;
        }
        let ghost ord = key_order(es, contents@.len() as int);
        self.output.push('{');
        let ghost start = self.output@;
        let max = if order.len() > 0 { order.len() - 1 } else { 0 };
        let mut idx: usize = 0;
        while idx < order.len()
            invariant
                idx <= order.len(),
                order.len() > 0 ==> max == order.len() - 1,
                es == value_entries_view(contents@),
                order@.len() == contents.len(),
                forall|x: int| 0 <= x < order@.len() ==> (#[trigger] order@[x]) < contents.len(),
                ord == Seq::new(order@.len(), |x: int| order@[x] as int),
                self.input == old(self).input,
                start == old(self).output@.push('{'),
                start + written_ordered(es, ord, 0) == self.output@ + written_ordered(es, ord, idx as int),
            decreases order.len() - idx,
        {
            let ghost before = self.output@;
            let at = order[idx];
            assert(ord[idx as int] == at as int);
            assert(es[at as int].0 == contents@[at as int].0@);
            assert(es[at as int].1 == contents@[at as int].1@);
            self.append_string(contents[at].0.as_str());
            self.raw_append(":");
            self.append_value(&contents[at].1);
            if idx != max {
                self.raw_append(",");
            }
            proof {
                reveal_strlit(":");
                reveal_strlit(",");
                let item = written_string(es[at as int].0) + seq![':'] + json_write(es[at as int].1)
                    + (if idx != ord.len() - 1 { seq![','] } else { Seq::empty() });
                assert(self.output@ =~= before + item);
                assert(written_ordered(es, ord, idx as int) == item + written_ordered(es, ord, idx + 1));
                assert(before + (item + written_ordered(es, ord, idx + 1)) =~= self.output@ + written_ordered(es, ord, idx + 1));
            }
            idx = idx + 1;
        }
        self.output.push('}');
        assert(start + written_ordered(es, ord, 0) =~= self.output@.drop_last());
    }

    /// Appends a list's members (see `written_items`).
    fn append_array(&mut self, contents: &Vec<Value>)
        ensures
            final(self).output@ == old(self).output@ + seq!['['] + written_items(value_list_view(contents@), 0) + seq![']'],
            final(self).input == old(self).input,
        decreases contents,
    {
        let ghost ms = value_list_view(contents@);
        self.output.push('[');
        let ghost start = self.output@;
        let mut idx: usize = 0;
        while idx < contents.len()
            invariant
                idx <= contents.len(),
                ms == value_list_view(contents@),
                self.input == old(self).input,
                start == old(self).output@.push('['),
                start + written_items(ms, 0) == self.output@ + written_items(ms, idx as int),
            decreases contents.len() - idx,
        {
            let ghost before = self.output@;
            assert(ms[idx as int] == contents@[idx as int]@);
            self.append_value(&contents[idx]);
            if idx != contents.len() - 1 {
                self.raw_append(",");
            }
            proof {
                reveal_strlit(",");
                let item = json_write(ms[idx as int]) + (if idx != ms.len() - 1 { seq![','] } else { Seq::empty() });
                assert(self.output@ =~= before + item);
                assert(written_items(ms, idx as int) == item + written_items(ms, idx + 1));
                assert(before + (item + written_items(ms, idx + 1)) =~= self.output@ + written_items(ms, idx + 1));
            }
            idx = idx + 1;
        }
        self.output.push(']');
        assert(start + written_items(ms, 0) =~= self.output@.drop_last());
    }

    /// Appends a value's JSON text (see `json_write`).
    fn append_value(&mut self, value: &Value)
        ensures
            final(self).output@ == old(self).output@ + json_write(value@),
            final(self).input == old(self).input,
        decreases value,
    {
        match value {
            Value::Null => self.raw_append("null"),
            Value::Bool(flag) => {
                if *flag {
                    self.raw_append("true")
                } else {
                    self.raw_append("false")
                }
            },
            Value::Uint32(num) => push_decimal(&mut self.output, *num as u64),
            Value::Int32(num) => self.append_int(*num),
            Value::Float64(num) => self.append_decimal(num),
            Value::String(string) => self.append_string(string.as_str()),
            Value::Dict(contents) => self.append_object(contents),
            Value::List(contents) => self.append_array(contents),
        }
    }

    /// The JSON text of the value.
    pub fn write(self) -> (r: Result<String, SerialError>)
        ensures
            r matches Ok(s) && s@ == self.written() + json_write(self.source()),
    {
        let mut this = self;
        let input = this.input;
        this.append_value(input);
        Ok(string_from_chars(this.output.as_slice()))
    }
}

} // verus!

use vstd::prelude::*;

use rand::Rng;
use vstd::hash_map::StringHashMap;

use crate::text::{chars_of, push_char};
use crate::ast::{names_model, BinaryOperator, UnaryOperator};
use crate::value::{
    copy_value, copy_values, lemma_values_model_index, lemma_values_model_len, lemma_values_model_push,
    values_model, Value, ValueModel,
};

verus! {

/// An error that stops a running program.
#[derive(Debug)]
pub struct RuntimeError {
    pub message: String,
}

fn runtime_error(message: String) -> (e: RuntimeError)
    ensures
        e.message@ == message@,
{
    RuntimeError { message }
}

// ---------------------------------------------------------------------------
// Numbers written in decimal
// ---------------------------------------------------------------------------

pub open spec fn digit_char(d: nat) -> char {
    if d == 0 {
        '0'
    } else if d == 1 {
        '1'
    } else if d == 2 {
        '2'
    } else if d == 3 {
        '3'
    } else if d == 4 {
        '4'
    } else if d == 5 {
        '5'
    } else if d == 6 {
        '6'
    } else if d == 7 {
        '7'
    } else if d == 8 {
        '8'
    } else {
        '9'
    }
}

/// The decimal digits of `n`, as `{}` writes them.
pub open spec fn decimal_text(n: nat) -> Seq<char>
    decreases n,
{
    if n < 10 {
        seq![digit_char(n)]
    } else {
        decimal_text(n / 10).push(digit_char(n % 10))
    }
}

fn digit(d: usize) -> (c: char)
    requires
        d < 10,
    ensures
        c == digit_char(d as nat),
{
    if d == 0 {
        '0'
    } else if d == 1 {
        '1'
    } else if d == 2 {
        '2'
    } else if d == 3 {
        '3'
    } else if d == 4 {
        '4'
    } else if d == 5 {
        '5'
    } else if d == 6 {
        '6'
    } else if d == 7 {
        '7'
    } else if d == 8 {
        '8'
    } else {
        '9'
    }
}

/// `n` written in decimal.
pub fn decimal(n: usize) -> (text: String)
    ensures
        text@ == decimal_text(n as nat),
    decreases n,
{
    if n < 10 {
        let mut text = String::new();
        push_char(&mut text, digit(n));
        assert(text@ =~= seq![digit_char(n as nat)]);
        text
    } else {
        let mut text = decimal(n / 10);
        push_char(&mut text, digit(n % 10));
        text
    }
}

// ---------------------------------------------------------------------------
// Messages
// ---------------------------------------------------------------------------

pub open spec fn undefined_variable_message(name: Seq<char>) -> Seq<char> {
    "Variable '"@ + name + "' has not been defined"@
}

pub open spec fn not_a_list_message(name: Seq<char>) -> Seq<char> {
    "Variable '"@ + name + "' is not a list"@
}

pub open spec fn undefined_function_message(name: Seq<char>) -> Seq<char> {
    "Function '"@ + name + "' has not been defined"@
}

fn quoted_message(before: &str, name: &str, after: &str) -> (e: RuntimeError)
    ensures
        e.message@ == before@ + name@ + after@,
{
    let mut message = String::from_str(before);
    message.append(name);
    message.append(after);
    runtime_error(message)
}

/// The error for a variable that no scope holds.
pub fn undefined_variable(name: &str) -> (e: RuntimeError)
    ensures
        e.message@ == undefined_variable_message(name@),
{
    quoted_message("Variable '", name, "' has not been defined")
}

/// The error for adding to a variable that does not hold a list.
pub fn not_a_list(name: &str) -> (e: RuntimeError)
    ensures
        e.message@ == not_a_list_message(name@),
{
    quoted_message("Variable '", name, "' is not a list")
}

/// The error for calling a function that was never defined.
pub fn undefined_function(name: &str) -> (e: RuntimeError)
    ensures
        e.message@ == undefined_function_message(name@),
{
    quoted_message("Function '", name, "' has not been defined")
}

pub open spec fn arity_message(name: Seq<char>, expected: nat, received: nat) -> Seq<char> {
    "Function '"@ + name + "' expects "@ + decimal_text(expected) + " argument(s), but received "@
        + decimal_text(received)
}

/// A call must give a function exactly as many arguments as it has parameters.
pub fn check_arity(name: &str, expected: usize, received: usize) -> (r: Result<(), RuntimeError>)
    ensures
        expected == received <==> r is Ok,
        r matches Err(e) ==> e.message@ == arity_message(name@, expected as nat, received as nat),
{
    if received != expected {
        let mut message = String::from_str("Function '");
        message.append(name);
        message.append("' expects ");
        message.append(decimal(expected).as_str());
        message.append(" argument(s), but received ");
        message.append(decimal(received).as_str());
        return Err(runtime_error(message));
    }
    Ok(())
}

// ---------------------------------------------------------------------------
// Lists
// ---------------------------------------------------------------------------

pub open spec fn out_of_bounds_message(index: nat) -> Seq<char> {
    "List index "@ + decimal_text(index) + " is out of bounds"@
}

/// The item at `index` of a list, counted from 1: the first item is at index 1.
pub fn list_item<V>(values: &Vec<V>, index: usize) -> (r: Result<&V, RuntimeError>)
    requires
        index >= 1,
    ensures
        index <= values.len() <==> r is Ok,
        r matches Ok(v) ==> *v == values@[index - 1],
        r matches Err(e) ==> e.message@ == out_of_bounds_message(index as nat),
{
    if index - 1 < values.len() {
        Ok(&values[index - 1])
    } else {
        let mut message = String::from_str("List index ");
        message.append(decimal(index).as_str());
        message.append(" is out of bounds");
        Err(runtime_error(message))
    }
}

// ---------------------------------------------------------------------------
// Random numbers
// ---------------------------------------------------------------------------

/// `rand::thread_rng().gen_range(minimum..=maximum)`: a number from the thread's random
/// generator between the two bounds, both included. Which number it is, is left open.
#[verifier::external_body]
fn draw_between(minimum: i64, maximum: i64) -> (n: i64)
    requires
        minimum <= maximum,
    ensures
        minimum <= n <= maximum,
{
    rand::thread_rng().gen_range(minimum..=maximum)
}

/// A random whole number from `minimum` to `maximum`, both included.
pub fn random_in_range(minimum: i64, maximum: i64) -> (r: Result<i64, RuntimeError>)
    ensures
        minimum <= maximum <==> r is Ok,
        r matches Ok(n) ==> minimum <= n <= maximum,
        r matches Err(e) ==> e.message@ == "random() minimum cannot be greater than maximum"@,
{
    if minimum > maximum {
        return Err(runtime_error(String::from_str("random() minimum cannot be greater than maximum")));
    }
    Ok(draw_between(minimum, maximum))
}

// ---------------------------------------------------------------------------
// Text
// ---------------------------------------------------------------------------

/// How one character is written inside a JSON string.
pub open spec fn json_char(c: char) -> Seq<char> {
    if c == '\\' {
        "\\\\"@
    } else if c == '"' {
        "\\\""@
    } else if c == '\n' {
        "\\n"@
    } else if c == '\r' {
        "\\r"@
    } else if c == '\t' {
        "\\t"@
    } else {
        seq![c]
    }
}

/// `s` with each character written as inside a JSON string.
pub open spec fn json_text(s: Seq<char>) -> Seq<char>
    decreases s.len(),
{
    if s.len() == 0 {
        Seq::empty()
    } else {
        json_text(s.drop_last()) + json_char(s.last())
    }
}

/// Escapes backslashes, quotes, newlines, carriage returns and tabs for a JSON string.
pub fn escape_json(text: &str) -> (escaped: String)
    ensures
        escaped@ == json_text(text@),
{
    let chars = chars_of(text);
    let mut escaped = String::new();
    for i in 0..chars.len()
        invariant
            chars@ == text@,
            escaped@ == json_text(chars@.take(i as int)),
    {
        let c = chars[i];
        assert(chars@.take(i + 1).drop_last() =~= chars@.take(i as int));
        if c == '\\' {
            escaped.append("\\\\");
        } else if c == '"' {
            escaped.append("\\\"");
        } else if c == '\n' {
            escaped.append("\\n");
        } else if c == '\r' {
            escaped.append("\\r");
        } else if c == '\t' {
            escaped.append("\\t");
        } else {
            push_char(&mut escaped, c);
        }
    }
    assert(chars@.take(chars@.len() as int) =~= chars@);
    escaped
}

/// The JSON form of a value whose numbers are already written out: text in double quotes,
/// escaped; booleans as `true` or `false`; lists in square brackets with their items separated
/// by `, `; `nothing` as `null`.
pub open spec fn json_of(v: ValueModel<String>) -> Seq<char>
    decreases v,
{
    match v {
        ValueModel::Text(t) => "\""@ + json_text(t) + "\""@,
        ValueModel::Number(n) => n@,
        ValueModel::Boolean(b) => if b { "true"@ } else { "false"@ },
        ValueModel::List(items) => "["@ + json_items(items) + "]"@,
        ValueModel::Nothing => "null"@,
    }
}

/// The JSON forms of the items of a list, separated by `, `.
pub open spec fn json_items(items: Seq<ValueModel<String>>) -> Seq<char>
    decreases items,
{
    if items.len() == 0 {
        Seq::empty()
    } else if items.len() == 1 {
        json_of(items[0])
    } else {
        json_items(items.drop_last()) + ", "@ + json_of(items.last())
    }
}

/// The JSON that `save` writes for a value, its numbers already written out.
pub fn value_to_json(value: &Value<String>) -> (json: String)
    ensures
        json@ == json_of(value@),
    decreases value,
{
    match value {
        Value::Text(t) => {
            let mut json = String::from_str("\"");
            json.append(escape_json(t.as_str()).as_str());
            json.append("\"");
            json
        },
        Value::Number(n) => n.clone(),
        Value::Boolean(b) => if *b {
            String::from_str("true")
        } else {
            String::from_str("false")
        },
        Value::List(items) => {
            let ghost models = values_model(items@);
            proof {
                lemma_values_model_len(items@);
            }
            let mut json = String::from_str("[");
            for i in 0..items.len()
                invariant
                    *value == Value::<String>::List(*items),
                    models == values_model(items@),
                    models.len() == items@.len(),
                    json@ == "["@ + json_items(models.take(i as int)),
            {
                proof {
                    assert(decreases_to!(*value => value->List_0));
                    assert(decreases_to!(items => items@));
                    assert(decreases_to!(items@ => items@[i as int]));
                    lemma_values_model_index(items@, i as int);
                    assert(models.take(i + 1).drop_last() =~= models.take(i as int));
                    assert(models.take(i + 1).last() == models[i as int]);
                }
                if i > 0 {
                    json.append(", ");
                }
                let item = value_to_json(&items[i]);
                json.append(item.as_str());
                proof {
                    if i == 0 {
                        assert(models.take(1) =~= seq![models[0]]);
                    }
                }
            }
            json.append("]");
            assert(models.take(items@.len() as int) =~= models);
            json
        },
        Value::Nothing => String::from_str("null"),
    }
}

/// A JSON value, as read back from text.
pub enum Json {
    Text(Seq<char>),
    Number(Seq<char>),
    Boolean(bool),
    List(Seq<Json>),
    Null,
}

/// The JSON value that a value (its numbers written out) stands for.
pub open spec fn as_json(v: ValueModel<String>) -> Json
    decreases v,
{
    match v {
        ValueModel::Text(t) => Json::Text(t),
        ValueModel::Number(n) => Json::Number(n@),
        ValueModel::Boolean(b) => Json::Boolean(b),
        ValueModel::List(items) => Json::List(as_json_items(items)),
        ValueModel::Nothing => Json::Null,
    }
}

/// The JSON values of the items of a list, in order.
pub open spec fn as_json_items(items: Seq<ValueModel<String>>) -> Seq<Json>
    decreases items,
{
    if items.len() == 0 {
        Seq::empty()
    } else {
        seq![as_json(items[0])] + as_json_items(items.drop_first())
    }
}

/// A character that a JSON number may hold.
pub open spec fn json_number_char(c: char) -> bool {
    ('0' <= c <= '9') || c == '-' || c == '+' || c == '.' || c == 'e' || c == 'E'
}

/// Every number of `v` is written as a non-empty run of number characters, as the decimal
/// form of a finite number is.
pub open spec fn well_numbered(v: ValueModel<String>) -> bool
    decreases v,
{
    match v {
        ValueModel::Number(n) => n@.len() > 0 && forall|k: int| 0 <= k < n@.len() ==> json_number_char(#[trigger] n@[k]),
        ValueModel::List(items) => forall|i: int| 0 <= i < items.len() ==> well_numbered(#[trigger] items[i]),
        _ => true,
    }
}

/// Where a run of number characters that starts at `p` ends.
pub open spec fn number_run_end(s: Seq<char>, p: int) -> int
    decreases s.len() - p,
{
    if 0 <= p < s.len() && json_number_char(s[p]) {
        number_run_end(s, p + 1)
    } else {
        p
    }
}

/// The character that a JSON escape `\x` stands for.
pub open spec fn unescaped(x: char) -> Option<char> {
    if x == '\\' {
        Some('\\')
    } else if x == '"' {
        Some('"')
    } else if x == 'n' {
        Some('\n')
    } else if x == 'r' {
        Some('\r')
    } else if x == 't' {
        Some('\t')
    } else {
        None
    }
}

/// The text of a JSON string whose characters continue at `p`, and the position after its
/// closing quote.
pub open spec fn decode_json_text(s: Seq<char>, p: int) -> Option<(Seq<char>, int)>
    decreases s.len() - p,
{
    if p < 0 || p >= s.len() {
        None
    } else if s[p] == '"' {
        Some((Seq::empty(), p + 1))
    } else if s[p] == '\\' {
        if p + 1 >= s.len() {
            None
        } else {
            match unescaped(s[p + 1]) {
                Some(c) => match decode_json_text(s, p + 2) {
                    Some((t, q)) => Some((seq![c] + t, q)),
                    None => None,
                },
                None => None,
            }
        }
    } else {
        match decode_json_text(s, p + 1) {
            Some((t, q)) => Some((seq![s[p]] + t, q)),
            None => None,
        }
    }
}

/// The JSON value written at `p`, and the position after it; `None` where no value is written
/// there.
pub open spec fn decode_json(s: Seq<char>, p: int) -> Option<(Json, int)>
    decreases s.len() - p, 0nat,
{
    if p < 0 || p >= s.len() {
        None
    } else if s[p] == '"' {
        match decode_json_text(s, p + 1) {
            Some((t, q)) => Some((Json::Text(t), q)),
            None => None,
        }
    } else if s[p] == '[' {
        if p + 1 < s.len() && s[p + 1] == ']' {
            Some((Json::List(Seq::empty()), p + 2))
        } else {
            decode_json_items(s, p + 1, Seq::empty())
        }
    } else if p + 4 <= s.len() && s.subrange(p, p + 4) == seq!['t', 'r', 'u', 'e'] {
        Some((Json::Boolean(true), p + 4))
    } else if p + 5 <= s.len() && s.subrange(p, p + 5) == seq!['f', 'a', 'l', 's', 'e'] {
        Some((Json::Boolean(false), p + 5))
    } else if p + 4 <= s.len() && s.subrange(p, p + 4) == seq!['n', 'u', 'l', 'l'] {
        Some((Json::Null, p + 4))
    } else if json_number_char(s[p]) {
        let q = number_run_end(s, p);
        Some((Json::Number(s.subrange(p, q)), q))
    } else {
        None
    }
}

/// The items of a JSON list from `p` on, separated by `, ` and closed by `]`, after the items
/// `done`.
pub open spec fn decode_json_items(s: Seq<char>, p: int, done: Seq<Json>) -> Option<(Json, int)>
    decreases s.len() - p, 1nat,
{
    if p < 0 || p >= s.len() {
        None
    } else {
        match decode_json(s, p) {
            Some((v, q)) => if q <= p || q >= s.len() {
                None
            } else if s[q] == ']' {
                Some((Json::List(done.push(v)), q + 1))
            } else if s[q] == ',' && q + 1 < s.len() && s[q + 1] == ' ' {
                decode_json_items(s, q + 2, done.push(v))
            } else {
                None
            },
            None => None,
        }
    }
}

/// `x` is written in `s` from position `p` on.
pub open spec fn occurs_at(s: Seq<char>, p: int, x: Seq<char>) -> bool {
    0 <= p && p + x.len() <= s.len() && forall|k: int| 0 <= k < x.len() ==> #[trigger] s[p + k] == x[k]
}

proof fn lemma_occurs_split(s: Seq<char>, p: int, a: Seq<char>, b: Seq<char>)
    requires
        occurs_at(s, p, a + b),
    ensures
        occurs_at(s, p, a),
        occurs_at(s, p + a.len(), b),
{
    assert forall|k: int| 0 <= k < a.len() implies #[trigger] s[p + k] == a[k] by {
        assert(s[p + k] == (a + b)[k]);
    }
    assert forall|k: int| 0 <= k < b.len() implies #[trigger] s[p + a.len() + k] == b[k] by {
        assert(s[p + (a.len() + k)] == (a + b)[a.len() + k]);
    }
}

proof fn lemma_json_text_front(c: char, t: Seq<char>)
    ensures
        json_text(seq![c] + t) == json_char(c) + json_text(t),
    decreases t.len(),
{
    let ct = seq![c] + t;
    assert(ct.len() > 0);
    assert(json_text(ct) == json_text(ct.drop_last()) + json_char(ct.last()));
    if t.len() == 0 {
        assert(ct.drop_last() =~= Seq::<char>::empty());
        assert(ct.last() == c);
        assert(json_text(Seq::<char>::empty()) == Seq::<char>::empty());
        assert(json_text(t) == Seq::<char>::empty());
        assert(json_text(ct) =~= json_char(c) + json_text(t));
    } else {
        assert(ct.drop_last() =~= seq![c] + t.drop_last());
        assert(ct.last() == t.last());
        lemma_json_text_front(c, t.drop_last());
        assert(json_text(t) == json_text(t.drop_last()) + json_char(t.last()));
        assert(json_text(ct) =~= json_char(c) + json_text(t));
    }
}

proof fn lemma_json_items_one(x: ValueModel<String>)
    ensures
        json_items(seq![x]) == json_of(x),
{
    assert(seq![x][0] == x);
}

proof fn lemma_json_items_front(items: Seq<ValueModel<String>>)
    requires
        items.len() >= 1,
    ensures
        items.len() == 1 ==> json_items(items) == json_of(items[0]),
        items.len() > 1 ==> json_items(items) == json_of(items[0]) + ", "@ + json_items(items.drop_first()),
    decreases items.len(),
{
    if items.len() > 1 {
        assert(json_items(items) == json_items(items.drop_last()) + ", "@ + json_of(items.last()));
    }
    if items.len() == 2 {
        assert(items.drop_last() =~= seq![items[0]]);
        assert(items.drop_first() =~= seq![items[1]]);
        lemma_json_items_one(items[0]);
        lemma_json_items_one(items[1]);
    } else if items.len() > 2 {
        lemma_json_items_front(items.drop_last());
        let rest = items.drop_first();
        assert(items.drop_last().drop_first() =~= rest.drop_last());
        assert(items.drop_last()[0] == items[0]);
        assert(rest.last() == items.last());
        assert(json_items(rest) == json_items(rest.drop_last()) + ", "@ + json_of(rest.last()));
        assert(json_items(items) =~= json_of(items[0]) + ", "@ + json_items(rest));
    }
}

proof fn lemma_decode_text(s: Seq<char>, p: int, t: Seq<char>)
    requires
        occurs_at(s, p, json_text(t) + seq!['"']),
    ensures
        decode_json_text(s, p) == Some((t, p + json_text(t).len() + 1)),
    decreases t.len(),
{
    reveal_strlit("\\\\");
    reveal_strlit("\\\"");
    reveal_strlit("\\n");
    reveal_strlit("\\r");
    reveal_strlit("\\t");
    if t.len() == 0 {
        assert(s[p + 0] == (json_text(t) + seq!['"'])[0]);
    } else {
        let c = t[0];
        let rest = t.drop_first();
        assert(t =~= seq![c] + rest);
        lemma_json_text_front(c, rest);
        let j = json_char(c);
        assert(json_text(t) + seq!['"'] =~= j + (json_text(rest) + seq!['"']));
        lemma_occurs_split(s, p, j, json_text(rest) + seq!['"']);
        lemma_decode_text(s, p + j.len(), rest);
        assert(s[p + 0] == j[0]);
        if j.len() == 2 {
            assert(s[p + 1] == j[1]);
        }
        assert(seq![c] + rest == t);
    }
}

proof fn lemma_number_run(s: Seq<char>, p: int, e: int)
    requires
        0 <= p <= e <= s.len(),
        forall|j: int| p <= j < e ==> json_number_char(#[trigger] s[j]),
        e == s.len() || !json_number_char(s[e]),
    ensures
        number_run_end(s, p) == e,
    decreases e - p,
{
    if p < e {
        lemma_number_run(s, p + 1, e);
    }
}

proof fn lemma_json_of_first(x: ValueModel<String>)
    requires
        well_numbered(x),
    ensures
        json_of(x).len() > 0,
        json_of(x)[0] != ']',
        json_of(x)[0] != ',',
{
    reveal_strlit("\"");
    reveal_strlit("true");
    reveal_strlit("false");
    reveal_strlit("null");
    reveal_strlit("[");
    match x {
        ValueModel::Number(n) => {
            assert(json_number_char(n@[0]));
        },
        _ => {},
    }
}

proof fn lemma_decode_value(s: Seq<char>, p: int, v: ValueModel<String>)
    requires
        well_numbered(v),
        occurs_at(s, p, json_of(v)),
        p + json_of(v).len() == s.len() || s[p + json_of(v).len()] == ',' || s[p + json_of(v).len()] == ']',
    ensures
        decode_json(s, p) == Some((as_json(v), p + json_of(v).len())),
    decreases v,
{
    reveal_strlit("\"");
    reveal_strlit("true");
    reveal_strlit("false");
    reveal_strlit("null");
    reveal_strlit("[");
    reveal_strlit("]");
    lemma_json_of_first(v);
    let j = json_of(v);
    assert(s[p + 0] == j[0]);
    match v {
        ValueModel::Text(t) => {
            assert(j =~= seq!['"'] + (json_text(t) + seq!['"']));
            lemma_occurs_split(s, p, seq!['"'], json_text(t) + seq!['"']);
            lemma_decode_text(s, p + 1, t);
        },
        ValueModel::Number(n) => {
            let e = p + j.len();
            assert forall|k: int| p <= k < e implies json_number_char(#[trigger] s[k]) by {
                assert(s[p + (k - p)] == j[k - p]);
            }
            lemma_number_run(s, p, e);
            if p + 4 <= s.len() {
                assert(s.subrange(p, p + 4)[0] == s[p]);
            }
            if p + 5 <= s.len() {
                assert(s.subrange(p, p + 5)[0] == s[p]);
            }
            assert(s.subrange(p, e) =~= n@) by {
                assert forall|k: int| 0 <= k < n@.len() implies s.subrange(p, e)[k] == n@[k] by {
                    assert(s[p + k] == j[k]);
                }
            }
        },
        ValueModel::Boolean(b) => {
            assert(s[p + 1] == j[1]);
            assert(s[p + 2] == j[2]);
            assert(s[p + 3] == j[3]);
            if b {
                assert(s.subrange(p, p + 4) =~= seq!['t', 'r', 'u', 'e']);
            } else {
                assert(s[p + 4] == j[4]);
                assert(s.subrange(p, p + 4)[0] == s[p]);
                assert(s.subrange(p, p + 5) =~= seq!['f', 'a', 'l', 's', 'e']);
            }
        },
        ValueModel::Nothing => {
            assert(s[p + 1] == j[1]);
            assert(s[p + 2] == j[2]);
            assert(s[p + 3] == j[3]);
            assert(s.subrange(p, p + 4)[0] == s[p]);
            if p + 5 <= s.len() {
                assert(s.subrange(p, p + 5)[0] == s[p]);
            }
            assert(s.subrange(p, p + 4) =~= seq!['n', 'u', 'l', 'l']);
        },
        ValueModel::List(items) => {
            assert(j =~= seq!['['] + (json_items(items) + seq![']']));
            lemma_occurs_split(s, p, seq!['['], json_items(items) + seq![']']);
            if items.len() == 0 {
                assert(json_items(items) == Seq::<char>::empty());
                assert(s[p + 1 + 0] == (json_items(items) + seq![']'])[0]);
                assert(as_json_items(items) == Seq::<Json>::empty());
            } else {
                lemma_json_items_front(items);
                lemma_json_of_first(items[0]);
                assert(s[p + 1 + 0] == (json_items(items) + seq![']'])[0]);
                assert((json_items(items) + seq![']'])[0] == json_of(items[0])[0]);
                lemma_decode_items(s, p + 1, items, Seq::empty());
                assert(Seq::<Json>::empty() + as_json_items(items) =~= as_json_items(items));
            }
        },
    }
}

proof fn lemma_decode_items(s: Seq<char>, p: int, items: Seq<ValueModel<String>>, done: Seq<Json>)
    requires
        items.len() >= 1,
        forall|i: int| 0 <= i < items.len() ==> well_numbered(#[trigger] items[i]),
        occurs_at(s, p, json_items(items) + seq![']']),
    ensures
        decode_json_items(s, p, done) == Some((Json::List(done + as_json_items(items)), p + json_items(items).len() + 1)),
    decreases items,
{
    reveal_strlit(", ");
    let x = items[0];
    let r = items.drop_first();
    lemma_json_items_front(items);
    lemma_json_of_first(x);
    let jx = json_of(x);
    let q = p + jx.len();
    assert(as_json_items(items) == seq![as_json(x)] + as_json_items(r));
    if items.len() == 1 {
        assert(json_items(items) + seq![']'] =~= jx + seq![']']);
        lemma_occurs_split(s, p, jx, seq![']']);
        assert(s[q + 0] == seq![']'][0]);
        lemma_decode_value(s, p, x);
        assert(r.len() == 0);
        assert(as_json_items(r) == Seq::<Json>::empty());
        assert(done + as_json_items(items) =~= done.push(as_json(x)));
    } else {
        assert(json_items(items) + seq![']'] =~= jx + (", "@ + (json_items(r) + seq![']'])));
        lemma_occurs_split(s, p, jx, ", "@ + (json_items(r) + seq![']']));
        lemma_occurs_split(s, q, ", "@, json_items(r) + seq![']']);
        assert(s[q + 0] == ", "@[0]);
        assert(s[q + 1] == ", "@[1]);
        lemma_decode_value(s, p, x);
        assert forall|i: int| 0 <= i < r.len() implies well_numbered(#[trigger] r[i]) by {
            assert(r[i] == items[i + 1]);
        }
        lemma_decode_items(s, q + 2, r, done.push(as_json(x)));
        assert(done.push(as_json(x)) + as_json_items(r) =~= done + as_json_items(items));
    }
}

/// The JSON that `save` writes reads back as the value it was written from: a JSON reader
/// takes the whole of `json_of(v)` as one value, `v`'s own, where every number of `v` is
/// written as a run of number characters.
pub proof fn law_json_reads_back(v: ValueModel<String>)
    requires
        well_numbered(v),
    ensures
        decode_json(json_of(v), 0) == Some((as_json(v), json_of(v).len() as int)),
{
    let s = json_of(v);
    assert forall|k: int| 0 <= k < s.len() implies #[trigger] s[0 + k] == s[k] by {}
    lemma_decode_value(s, 0, v);
}

/// `s` without the carriage returns and newlines at its end.
pub open spec fn without_line_end(s: Seq<char>) -> Seq<char>
    decreases s.len(),
{
    if s.len() > 0 && (s.last() == '\r' || s.last() == '\n') {
        without_line_end(s.drop_last())
    } else {
        s
    }
}

proof fn lemma_without_line_end(s: Seq<char>, n: int)
    requires
        0 <= n <= s.len(),
        forall|j: int| n <= j < s.len() ==> s[j] == '\r' || s[j] == '\n',
    ensures
        without_line_end(s) == without_line_end(s.take(n)),
    decreases s.len() - n,
{
    if n < s.len() {
        assert(s.drop_last() =~= s.take(s.len() - 1));
        lemma_without_line_end(s.take(s.len() - 1), n);
        assert(s.take(s.len() - 1).take(n) =~= s.take(n));
    } else {
        assert(s.take(n) =~= s);
    }
}

/// A line of input without the line ending that reading it kept.
pub fn trim_line_end(input: &str) -> (line: String)
    ensures
        line@ == without_line_end(input@),
{
    let chars = chars_of(input);
    let mut end = chars.len();
    while end > 0 && (chars[end - 1] == '\r' || chars[end - 1] == '\n')
        invariant
            end <= chars.len(),
            chars@ == input@,
            forall|j: int| end <= j < chars.len() ==> chars@[j] == '\r' || chars@[j] == '\n',
        decreases end,
    {
        end = end - 1;
    }
    proof {
        lemma_without_line_end(chars@, end as int);
        assert(without_line_end(chars@.take(end as int)) == chars@.take(end as int));
    }
    let mut line = String::new();
    for i in 0..end
        invariant
            end <= chars.len(),
            line@ == chars@.take(i as int),
    {
        push_char(&mut line, chars[i]);
        assert(chars@.take(i + 1) =~= chars@.take(i as int).push(chars@[i as int]));
    }
    line
}

pub open spec fn invalid_boolean_message(input: Seq<char>) -> Seq<char> {
    "'"@ + input + "' is not a valid boolean"@
}

/// The boolean that an answer stands for: `true`, `True` or `TRUE`, and `false`, `False` or
/// `FALSE`.
pub open spec fn boolean_answer(input: Seq<char>) -> Option<bool> {
    if input == "true"@ || input == "True"@ || input == "TRUE"@ {
        Some(true)
    } else if input == "false"@ || input == "False"@ || input == "FALSE"@ {
        Some(false)
    } else {
        None
    }
}

/// The boolean that an answer to a `get ... as boolean` stands for.
pub fn parse_boolean_input(input: &str) -> (r: Result<bool, RuntimeError>)
    ensures
        match boolean_answer(input@) {
            Some(b) => r == Ok::<bool, RuntimeError>(b),
            None => r matches Err(e) && e.message@ == invalid_boolean_message(input@),
        },
{
    let text = String::from_str(input);
    if text == String::from_str("true") || text == String::from_str("True") || text == String::from_str("TRUE") {
        Ok(true)
    } else if text == String::from_str("false") || text == String::from_str("False") || text == String::from_str("FALSE") {
        Ok(false)
    } else {
        Err(quoted_message("'", input, "' is not a valid boolean"))
    }
}


// ---------------------------------------------------------------------------
// Variables
// ---------------------------------------------------------------------------

/// The innermost of the first `n` scopes that holds `name`.
pub open spec fn holder_below<V>(scopes: Seq<Map<Seq<char>, V>>, name: Seq<char>, n: int) -> Option<int>
    decreases n,
{
    if n <= 0 {
        None
    } else if scopes[n - 1].contains_key(name) {
        Some(n - 1)
    } else {
        holder_below(scopes, name, n - 1)
    }
}

/// The innermost scope that holds `name`, if any does.
pub open spec fn holder<V>(scopes: Seq<Map<Seq<char>, V>>, name: Seq<char>) -> Option<int> {
    holder_below(scopes, name, scopes.len() as int)
}

/// The value of `name`: the one in the innermost scope that holds it.
pub open spec fn lookup<V>(scopes: Seq<Map<Seq<char>, V>>, name: Seq<char>) -> Option<V> {
    match holder(scopes, name) {
        Some(i) => Some(scopes[i][name]),
        None => None,
    }
}

/// The scopes after `define name = value`: the innermost scope gets `name`.
pub open spec fn defined<V>(scopes: Seq<Map<Seq<char>, V>>, name: Seq<char>, value: V) -> Seq<Map<Seq<char>, V>> {
    if scopes.len() == 0 {
        scopes
    } else {
        scopes.update(scopes.len() - 1, scopes.last().insert(name, value))
    }
}

/// The scopes after `name = value`: the innermost scope that holds `name` gets the new value;
/// none when no scope holds it.
pub open spec fn assigned<V>(scopes: Seq<Map<Seq<char>, V>>, name: Seq<char>, value: V) -> Option<Seq<Map<Seq<char>, V>>> {
    match holder(scopes, name) {
        Some(i) => Some(scopes.update(i, scopes[i].insert(name, value))),
        None => None,
    }
}

proof fn lemma_holder_below<V>(scopes: Seq<Map<Seq<char>, V>>, name: Seq<char>, n: int)
    requires
        0 <= n <= scopes.len(),
    ensures
        holder_below(scopes, name, n) matches Some(i) ==> 0 <= i < n && scopes[i].contains_key(name)
            && forall|j: int| i < j < n ==> !scopes[j].contains_key(name),
        holder_below(scopes, name, n) is None ==> forall|j: int| 0 <= j < n ==> !scopes[j].contains_key(name),
    decreases n,
{
    if n > 0 {
        lemma_holder_below(scopes, name, n - 1);
    }
}

proof fn lemma_holder_unique<V>(scopes: Seq<Map<Seq<char>, V>>, name: Seq<char>, n: int, i: int)
    requires
        0 <= i < n <= scopes.len(),
        scopes[i].contains_key(name),
        forall|j: int| i < j < n ==> !scopes[j].contains_key(name),
    ensures
        holder_below(scopes, name, n) == Some(i),
    decreases n,
{
    if n - 1 > i {
        lemma_holder_unique(scopes, name, n - 1, i);
    }
}


proof fn lemma_holder_same<V, W>(s1: Seq<Map<Seq<char>, V>>, s2: Seq<Map<Seq<char>, W>>, name: Seq<char>, n: int)
    requires
        0 <= n <= s1.len(),
        s1.len() == s2.len(),
        forall|j: int| 0 <= j < s1.len() ==> s1[j].contains_key(name) == s2[j].contains_key(name),
    ensures
        holder_below(s1, name, n) == holder_below(s2, name, n),
    decreases n,
{
    if n > 0 {
        lemma_holder_same(s1, s2, name, n - 1);
    }
}

/// After `define name = value`, `name` has that value, and every other name keeps its own.
pub proof fn law_define_then_read<V>(scopes: Seq<Map<Seq<char>, V>>, name: Seq<char>, value: V, other: Seq<char>)
    requires
        scopes.len() > 0,
    ensures
        lookup(defined(scopes, name, value), name) == Some(value),
        other != name ==> lookup(defined(scopes, name, value), other) == lookup(scopes, other),
        defined(scopes, name, value).len() == scopes.len(),
{
    let after = defined(scopes, name, value);
    let n = scopes.len() as int;
    lemma_holder_unique(after, name, n, n - 1);
    if other != name {
        lemma_holder_same(after, scopes, other, n);
        lemma_holder_below(scopes, other, n);
        if let Some(i) = holder(scopes, other) {
            assert(after[i][other] == scopes[i][other]);
        }
    }
}

/// A variable must exist before it is reassigned: an assignment takes place exactly when the
/// name has a value.
pub proof fn law_assign_needs_definition<V>(scopes: Seq<Map<Seq<char>, V>>, name: Seq<char>, value: V)
    ensures
        assigned(scopes, name, value) is Some <==> lookup(scopes, name) is Some,
{
}

/// After `name = value` has taken place, `name` has that value, every other name keeps its own,
/// and no scope is added or removed.
pub proof fn law_assign_then_read<V>(scopes: Seq<Map<Seq<char>, V>>, name: Seq<char>, value: V, other: Seq<char>)
    ensures
        assigned(scopes, name, value) matches Some(after) ==> {
            &&& lookup(after, name) == Some(value)
            &&& other != name ==> lookup(after, other) == lookup(scopes, other)
            &&& after.len() == scopes.len()
        },
{
    let n = scopes.len() as int;
    lemma_holder_below(scopes, name, n);
    if let Some(i) = holder(scopes, name) {
        let after = scopes.update(i, scopes[i].insert(name, value));
        lemma_holder_unique(after, name, n, i);
        if other != name {
            lemma_holder_same(after, scopes, other, n);
            lemma_holder_below(scopes, other, n);
            if let Some(k) = holder(scopes, other) {
                assert(after[k][other] == scopes[k][other]);
            }
        }
    }
}

/// The variables that a function call defines are gone once the call returns: opening a scope,
/// defining in it and closing it again leaves the scopes as they were.
pub proof fn law_call_scope_is_dropped<V>(scopes: Seq<Map<Seq<char>, V>>, name: Seq<char>, value: V)
    ensures
        defined(scopes.push(Map::empty()), name, value).drop_last() == scopes,
{
    assert(defined(scopes.push(Map::empty()), name, value).drop_last() =~= scopes);
}

/// A function can change a variable of its caller that its own scope does not hold: the change
/// is the one the caller's scopes would get, and it stays once the call's scope is closed.
pub proof fn law_assign_reaches_caller<V>(scopes: Seq<Map<Seq<char>, V>>, local: Map<Seq<char>, V>, name: Seq<char>, value: V)
    requires
        !local.contains_key(name),
    ensures
        assigned(scopes.push(local), name, value) is Some <==> assigned(scopes, name, value) is Some,
        assigned(scopes.push(local), name, value) matches Some(after) ==>
            after.drop_last() == assigned(scopes, name, value).unwrap() && after.last() == local,
{
    let all = scopes.push(local);
    let n = scopes.len() as int;
    lemma_holder_below(scopes, name, n);
    lemma_holder_below(all, name, n + 1);
    assert(holder_below(all, name, n + 1) == holder_below(all, name, n));
    lemma_holder_same(all.take(n), scopes, name, n);
    assert(all.take(n) =~= scopes);
    lemma_holder_prefix(all, name, n);
    if let Some(i) = holder(scopes, name) {
        assert(all.update(i, all[i].insert(name, value)).drop_last() =~= scopes.update(i, scopes[i].insert(name, value)));
    }
}

proof fn lemma_holder_prefix<V>(s: Seq<Map<Seq<char>, V>>, name: Seq<char>, n: int)
    requires
        0 <= n <= s.len(),
    ensures
        holder_below(s, name, n) == holder_below(s.take(n), name, n),
    decreases n,
{
    if n > 0 {
        lemma_holder_prefix(s, name, n - 1);
        lemma_holder_prefix(s.take(n), name, n - 1);
        assert(s.take(n).take(n - 1) =~= s.take(n - 1));
    }
}

/// The variables of a call's own scope: each parameter has the argument at its place. Where a
/// name stands twice among the parameters, the later one wins, as the definitions are made in
/// order.
pub open spec fn bound<V>(names: Seq<Seq<char>>, values: Seq<V>) -> Map<Seq<char>, V>
    decreases names.len(),
{
    if names.len() == 0 || values.len() == 0 {
        Map::empty()
    } else {
        bound(names.drop_last(), values.drop_last()).insert(names.last(), values.last())
    }
}

/// Arguments are passed in the same order as the parameters: when no parameter name stands
/// twice, the call's scope holds exactly the parameters, and the `k`-th parameter has the
/// `k`-th argument.
pub proof fn law_arguments_in_order<V>(names: Seq<Seq<char>>, values: Seq<V>, k: int)
    requires
        names.len() == values.len(),
        names.no_duplicates(),
        0 <= k < names.len(),
    ensures
        bound(names, values).contains_key(names[k]),
        bound(names, values)[names[k]] == values[k],
        bound(names, values).dom() == names.to_set(),
    decreases names.len(),
{
    let n = names.len() - 1;
    if k < n {
        assert(names.drop_last().no_duplicates()) by {
            assert forall|i: int, j: int| 0 <= i < j < names.drop_last().len() implies names.drop_last()[i]
                != names.drop_last()[j] by {
                assert(names[i] != names[j]);
            }
        }
        law_arguments_in_order(names.drop_last(), values.drop_last(), k);
        assert(names[k] != names[n]);
    }
    lemma_bound_domain(names, values);
}

proof fn lemma_bound_domain<V>(names: Seq<Seq<char>>, values: Seq<V>)
    requires
        names.len() == values.len(),
    ensures
        bound(names, values).dom() == names.to_set(),
    decreases names.len(),
{
    if names.len() > 0 {
        lemma_bound_domain(names.drop_last(), values.drop_last());
        assert(names.to_set() =~= names.drop_last().to_set().insert(names.last())) by {
            assert forall|x: Seq<char>| names.to_set().contains(x) implies names.drop_last().to_set().insert(
                names.last(),
            ).contains(x) by {
                let i = choose|i: int| 0 <= i < names.len() && names[i] == x;
                if i < names.len() - 1 {
                    assert(names.drop_last()[i] == x);
                }
            }
            assert forall|x: Seq<char>| names.drop_last().to_set().insert(names.last()).contains(x) implies names.to_set().contains(x) by {
                if x != names.last() {
                    let i = choose|i: int| 0 <= i < names.drop_last().len() && names.drop_last()[i] == x;
                    assert(names[i] == x);
                } else {
                    assert(names[names.len() - 1] == x);
                }
            }
        }
    } else {
        assert(names.to_set() =~= Set::empty());
    }
}

/// The variables of a running program: a stack of scopes, the innermost last. A function call
/// runs in a scope of its own, above the scopes of its caller.
#[verifier::reject_recursive_types(V)]
pub struct Environment<V> {
    scopes: Vec<StringHashMap<V>>,
}

impl<V> View for Environment<V> {
    type V = Seq<Map<Seq<char>, V>>;

    closed spec fn view(&self) -> Seq<Map<Seq<char>, V>> {
        self.scopes@.map_values(|m: StringHashMap<V>| m@)
    }
}

impl<V> Environment<V> {
    /// One empty scope: the program's own.
    pub fn new() -> (env: Self)
        ensures
            env@ == seq![Map::<Seq<char>, V>::empty()],
    {
        let mut scopes = Vec::new();
        scopes.push(StringHashMap::new());
        let env = Environment { scopes };
        assert(env@ =~= seq![Map::<Seq<char>, V>::empty()]);
        env
    }

    /// The number of scopes.
    pub fn depth(&self) -> (n: usize)
        ensures
            n == self@.len(),
    {
        self.scopes.len()
    }

    /// Opens a new, empty innermost scope.
    pub fn push_scope(&mut self)
        ensures
            final(self)@ == old(self)@.push(Map::empty()),
    {
        self.scopes.push(StringHashMap::new());
        assert(final(self)@ =~= old(self)@.push(Map::empty()));
    }

    /// Opens the scope of a function call, in which each parameter has the argument at its
    /// place.
    pub fn enter_call(&mut self, parameters: &[String], arguments: Vec<V>)
        requires
            parameters@.len() == arguments@.len(),
        ensures
            final(self)@ == old(self)@.push(bound(names_model(parameters@), arguments@)),
    {
        self.push_scope();
        let ghost start = old(self)@;
        let ghost names = names_model(parameters@);
        let ghost values = arguments@;
        let mut rest = arguments;
        let mut i: usize = 0;
        while i < parameters.len()
            invariant
                i <= parameters@.len(),
                parameters@.len() == values.len(),
                names == names_model(parameters@),
                rest@ == values.skip(i as int),
                self@ == start.push(bound(names.take(i as int), values.take(i as int))),
            decreases parameters@.len() - i,
        {
            let value = rest.remove(0);
            proof {
                assert(names.take(i + 1).drop_last() =~= names.take(i as int));
                assert(values.take(i + 1).drop_last() =~= values.take(i as int));
                assert(names[i as int] == parameters@[i as int]@);
            }
            self.define_variable(parameters[i].as_str(), value);
            proof {
                assert(rest@ =~= values.skip(i + 1));
                assert(self@ =~= start.push(bound(names.take(i + 1), values.take(i + 1))));
            }
            i = i + 1;
        }
        proof {
            assert(names.take(i as int) =~= names);
            assert(values.take(i as int) =~= values);
        }
    }

    /// Closes the innermost scope, and forgets its variables.
    pub fn pop_scope(&mut self)
        ensures
            old(self)@.len() > 0 ==> final(self)@ == old(self)@.drop_last(),
            old(self)@.len() == 0 ==> final(self)@ == old(self)@,
    {
        let _ = self.scopes.pop();
        assert(old(self)@.len() > 0 ==> final(self)@ =~= old(self)@.drop_last());
        assert(old(self)@.len() == 0 ==> final(self)@ =~= old(self)@);
    }

    /// `define name = value`: sets `name` in the innermost scope.
    pub fn define_variable(&mut self, name: &str, value: V)
        ensures
            final(self)@ == defined(old(self)@, name@, value),
    {
        let n = self.scopes.len();
        if n > 0 {
            self.scopes[n - 1].insert(String::from_str(name), value);
            assert(final(self)@ =~= defined(old(self)@, name@, value));
        }
    }

    /// `name = value`: sets `name` in the innermost scope that holds it. Returns whether one did.
    pub fn assign_variable(&mut self, name: &str, value: V) -> (done: bool)
        ensures
            done == (assigned(old(self)@, name@, value) is Some),
            match assigned(old(self)@, name@, value) {
                Some(s) => final(self)@ == s,
                None => final(self)@ == old(self)@,
            },
    {
        let ghost start = self@;
        let mut i = self.scopes.len();
        while i > 0
            invariant
                i <= self.scopes.len(),
                self@ == start,
                start == old(self)@,
                holder(start, name@) == holder_below(start, name@, i as int),
            decreases i,
        {
            i = i - 1;
            if self.scopes[i].contains_key(name) {
                self.scopes[i].insert(String::from_str(name), value);
                assert(self@ =~= start.update(i as int, start[i as int].insert(name@, value)));
                return true;
            }
        }
        false
    }

    /// The value of `name` in the innermost scope that holds it.
    pub fn get_variable(&self, name: &str) -> (r: Option<&V>)
        ensures
            match lookup(self@, name@) {
                Some(v) => r matches Some(x) && *x == v,
                None => r is None,
            },
    {
        let mut i = self.scopes.len();
        while i > 0
            invariant
                i <= self.scopes.len(),
                holder(self@, name@) == holder_below(self@, name@, i as int),
            decreases i,
        {
            i = i - 1;
            match self.scopes[i].get(name) {
                Some(v) => {
                    return Some(v);
                },
                None => {},
            }
        }
        None
    }
}


/// The model of each value of each scope.
pub open spec fn scope_models<N>(scopes: Seq<Map<Seq<char>, Value<N>>>) -> Seq<Map<Seq<char>, ValueModel<N>>> {
    scopes.map_values(|m: Map<Seq<char>, Value<N>>| m.map_values(|v: Value<N>| v@))
}

proof fn lemma_scope_models_lookup<N>(scopes: Seq<Map<Seq<char>, Value<N>>>, name: Seq<char>)
    ensures
        holder(scope_models(scopes), name) == holder(scopes, name),
        lookup(scope_models(scopes), name) == match lookup(scopes, name) {
            Some(v) => Some(v@),
            None => None::<ValueModel<N>>,
        },
{
    let models = scope_models(scopes);
    assert forall|j: int| 0 <= j < scopes.len() implies scopes[j].contains_key(name) == models[j].contains_key(name) by {
        assert(models[j] == scopes[j].map_values(|v: Value<N>| v@));
    }
    lemma_holder_same(models, scopes, name, scopes.len() as int);
    lemma_holder_below(scopes, name, scopes.len() as int);
}

proof fn lemma_scope_models_update<N>(scopes: Seq<Map<Seq<char>, Value<N>>>, i: int, name: Seq<char>, v: Value<N>)
    requires
        0 <= i < scopes.len(),
    ensures
        scope_models(scopes.update(i, scopes[i].insert(name, v))) == scope_models(scopes).update(
            i,
            scope_models(scopes)[i].insert(name, v@),
        ),
{
    let f = |v: Value<N>| v@;
    assert(scopes[i].insert(name, v).map_values(f) =~= scopes[i].map_values(f).insert(name, v@));
    assert(scope_models(scopes.update(i, scopes[i].insert(name, v))) =~= scope_models(scopes).update(
        i,
        scope_models(scopes)[i].insert(name, v@),
    ));
}

/// After `add value to name` has taken place, `name` holds its old list with `value` appended:
/// one item longer, ending with `value`, its earlier items where they were. Every other name
/// keeps its value, and no scope is added or removed.
pub proof fn law_add_then_read<N>(
    scopes: Seq<Map<Seq<char>, ValueModel<N>>>,
    name: Seq<char>,
    items: Seq<ValueModel<N>>,
    value: ValueModel<N>,
    other: Seq<char>,
)
    requires
        lookup(scopes, name) == Some(ValueModel::List(items)),
    ensures
        assigned(scopes, name, ValueModel::List(items.push(value))) matches Some(after) && {
            &&& lookup(after, name) matches Some(ValueModel::List(now)) && {
                &&& now.len() == items.len() + 1
                &&& now.last() == value
                &&& forall|k: int| 0 <= k < items.len() ==> #[trigger] now[k] == items[k]
            }
            &&& other != name ==> lookup(after, other) == lookup(scopes, other)
            &&& after.len() == scopes.len()
        },
{
    law_assign_then_read(scopes, name, ValueModel::List(items.push(value)), other);
}

impl<N: Copy> Environment<Value<N>> {
    /// `add value to name`: appends `value` to the list that `name` holds, in the innermost
    /// scope that holds `name`. Fails when no scope holds `name`, or when its value is no list.
    pub fn add_to_list(&mut self, name: &str, value: Value<N>) -> (r: Result<(), RuntimeError>)
        ensures
            match lookup(old(self)@, name@) {
                None => r matches Err(e) && e.message@ == undefined_variable_message(name@)
                    && final(self)@ == old(self)@,
                Some(current) => match current@ {
                    ValueModel::List(items) => r is Ok && Some(scope_models(final(self)@)) == assigned(
                        scope_models(old(self)@),
                        name@,
                        ValueModel::List(items.push(value@)),
                    ),
                    _ => r matches Err(e) && e.message@ == not_a_list_message(name@)
                        && final(self)@ == old(self)@,
                },
            },
    {
        let ghost start = self@;
        proof {
            lemma_scope_models_lookup(start, name@);
            lemma_holder_below(start, name@, start.len() as int);
        }
        let mut i = self.scopes.len();
        while i > 0
            invariant
                i <= self.scopes.len(),
                self@ == start,
                start == old(self)@,
                holder(start, name@) == holder_below(start, name@, i as int),
                holder(scope_models(start), name@) == holder(start, name@),
            decreases i,
        {
            i = i - 1;
            if self.scopes[i].contains_key(name) {
                let ghost current = start[i as int][name@];
                assert(holder(start, name@) == Some(i as int));
                assert(lookup(start, name@) == Some(current));
                let list: Option<Vec<Value<N>>> = match self.scopes[i].get(name) {
                    Some(Value::List(items)) => Some(copy_values(items)),
                    _ => None,
                };
                assert(list matches Some(l) ==> current matches Value::List(v) && values_model(l@) == values_model(v@));
                assert(list is None ==> !(current is List));
                match list {
                    Some(mut items) => {
                        let ghost old_items = items@;
                        proof {
                            lemma_values_model_push(old_items, value);
                        }
                        items.push(value);
                        let new_value = Value::List(items);
                        self.scopes[i].insert(String::from_str(name), new_value);
                        proof {
                            assert(self@ =~= start.update(i as int, start[i as int].insert(name@, new_value)));
                            lemma_scope_models_update(start, i as int, name@, new_value);
                            let models = scope_models(start);
                            let grown = ValueModel::List(values_model(old_items).push(value@));
                            assert(new_value@ == grown);
                            assert(current@ matches ValueModel::List(items) && items.push(value@) == values_model(
                                old_items,
                            ).push(value@));
                            assert(holder(models, name@) == Some(i as int));
                            assert(assigned(models, name@, grown) == Some(
                                models.update(i as int, models[i as int].insert(name@, grown)),
                            ));
                        }
                        return Ok(());
                    },
                    None => {
                        return Err(not_a_list(name));
                    },
                }
            }
        }
        Err(undefined_variable(name))
    }
}

// ---------------------------------------------------------------------------
// Values
// ---------------------------------------------------------------------------

/// Which branch of `when ... otherwise` runs: the body when the condition is `true`, the
/// `otherwise` part when it is `false`. Any other condition is an error.
pub fn condition_holds<N>(condition: &Value<N>) -> (r: Result<bool, RuntimeError>)
    ensures
        match condition@ {
            ValueModel::Boolean(b) => r == Ok::<bool, RuntimeError>(b),
            _ => r matches Err(e) && e.message@ == "When condition must be boolean"@,
        },
{
    match condition {
        Value::Boolean(b) => Ok(*b),
        _ => Err(runtime_error(String::from_str("When condition must be boolean"))),
    }
}

/// What `and` or `or` gives from its left side alone, or `None` when its right side decides:
/// `false and ...` is `false`, `true or ...` is `true`.
pub open spec fn decided_by_left(operator: BinaryOperator, left: bool) -> Option<bool> {
    if operator == BinaryOperator::And {
        if left { None } else { Some(false) }
    } else {
        if left { Some(true) } else { None }
    }
}

/// The left side of `and` or `or`: the result when it decides it, so that the right side is
/// never evaluated, or `None` when the right side decides. It must be a boolean.
pub fn logical_left<N>(operator: BinaryOperator, left: &Value<N>) -> (r: Result<Option<bool>, RuntimeError>)
    requires
        operator == BinaryOperator::And || operator == BinaryOperator::Or,
    ensures
        match left@ {
            ValueModel::Boolean(b) => r == Ok::<Option<bool>, RuntimeError>(decided_by_left(operator, b)),
            _ => r matches Err(e) && e.message@ == if operator == BinaryOperator::And {
                "Left side of 'and' must be boolean"@
            } else {
                "Left side of 'or' must be boolean"@
            },
        },
{
    match left {
        Value::Boolean(b) => {
            let is_and = match operator {
                BinaryOperator::And => true,
                _ => false,
            };
            if is_and {
                if *b { Ok(None) } else { Ok(Some(false)) }
            } else {
                if *b { Ok(Some(true)) } else { Ok(None) }
            }
        },
        _ => match operator {
            BinaryOperator::And => Err(runtime_error(String::from_str("Left side of 'and' must be boolean"))),
            _ => Err(runtime_error(String::from_str("Left side of 'or' must be boolean"))),
        },
    }
}

/// The right side of `and` or `or`, when it decides the result: it must be a boolean, and is
/// the result.
pub fn logical_right<N>(operator: BinaryOperator, right: &Value<N>) -> (r: Result<bool, RuntimeError>)
    requires
        operator == BinaryOperator::And || operator == BinaryOperator::Or,
    ensures
        match right@ {
            ValueModel::Boolean(b) => r == Ok::<bool, RuntimeError>(b),
            _ => r matches Err(e) && e.message@ == if operator == BinaryOperator::And {
                "Right side of 'and' must be boolean"@
            } else {
                "Right side of 'or' must be boolean"@
            },
        },
{
    match right {
        Value::Boolean(b) => Ok(*b),
        _ => match operator {
            BinaryOperator::And => Err(runtime_error(String::from_str("Right side of 'and' must be boolean"))),
            _ => Err(runtime_error(String::from_str("Right side of 'or' must be boolean"))),
        },
    }
}

/// On two booleans, `and` and `or` are the logical operations: `a and b` is true exactly when
/// both are, `a or b` exactly when at least one is.
pub proof fn law_logical_operators(a: bool, b: bool)
    ensures
        (match decided_by_left(BinaryOperator::And, a) {
            Some(x) => x,
            None => b,
        }) == (a && b),
        (match decided_by_left(BinaryOperator::Or, a) {
            Some(x) => x,
            None => b,
        }) == (a || b),
{
}

/// `not value`: reverses a boolean.
pub fn evaluate_not<N>(value: &Value<N>) -> (r: Result<Value<N>, RuntimeError>)
    ensures
        match value@ {
            ValueModel::Boolean(b) => r matches Ok(v) && v@ == ValueModel::<N>::Boolean(!b),
            _ => r matches Err(e) && e.message@ == "Operator 'not' requires a boolean"@,
        },
{
    match value {
        Value::Boolean(b) => Ok(Value::Boolean(!*b)),
        _ => Err(runtime_error(String::from_str("Operator 'not' requires a boolean"))),
    }
}

/// The number that unary `-` or `+` applies to.
pub fn unary_operand<N: Copy>(operator: UnaryOperator, value: &Value<N>) -> (r: Result<N, RuntimeError>)
    requires
        operator != UnaryOperator::Not,
    ensures
        match value@ {
            ValueModel::Number(n) => r == Ok::<N, RuntimeError>(n),
            _ => r matches Err(e) && e.message@ == if operator == UnaryOperator::Negate {
                "Unary '-' requires a number"@
            } else {
                "Unary '+' requires a number"@
            },
        },
{
    match value {
        Value::Number(n) => Ok(*n),
        _ => match operator {
            UnaryOperator::Negate => Err(runtime_error(String::from_str("Unary '-' requires a number"))),
            _ => Err(runtime_error(String::from_str("Unary '+' requires a number"))),
        },
    }
}

/// The number that an arithmetic operation or a comparison works on.
pub fn require_number<N: Copy>(value: &Value<N>) -> (r: Result<N, RuntimeError>)
    ensures
        match value@ {
            ValueModel::Number(n) => r == Ok::<N, RuntimeError>(n),
            _ => r matches Err(e) && e.message@ == "This operation requires numbers"@,
        },
{
    match value {
        Value::Number(n) => Ok(*n),
        _ => Err(runtime_error(String::from_str("This operation requires numbers"))),
    }
}

/// `collection[index]`, with the index already checked to be a positive whole number: the
/// item at that place of a list, counted from 1.
pub fn index_list<N: Copy>(collection: &Value<N>, index: usize) -> (r: Result<Value<N>, RuntimeError>)
    requires
        index >= 1,
    ensures
        match collection@ {
            ValueModel::List(items) => if index <= items.len() {
                r matches Ok(v) && v@ == items[index - 1]
            } else {
                r matches Err(e) && e.message@ == out_of_bounds_message(index as nat)
            },
            _ => r matches Err(e) && e.message@ == "Only lists can be indexed"@,
        },
{
    match collection {
        Value::List(values) => {
            proof {
                lemma_values_model_len(values@);
                if index <= values@.len() {
                    lemma_values_model_index(values@, index - 1);
                }
            }
            match list_item(values, index) {
                Ok(item) => Ok(copy_value(item)),
                Err(e) => Err(e),
            }
        },
        _ => Err(runtime_error(String::from_str("Only lists can be indexed"))),
    }
}

/// The file that `save ... to path` writes: the path must be text.
pub fn save_path<N>(path: Value<N>) -> (r: Result<String, RuntimeError>)
    ensures
        match path@ {
            ValueModel::Text(t) => r matches Ok(p) && p@ == t,
            _ => r matches Err(e) && e.message@ == "Save path must be text"@,
        },
{
    match path {
        Value::Text(p) => Ok(p),
        _ => Err(runtime_error(String::from_str("Save path must be text"))),
    }
}

// ---------------------------------------------------------------------------
// Functions
// ---------------------------------------------------------------------------

/// The functions that a program has defined, by name.
#[verifier::reject_recursive_types(F)]
pub struct FunctionTable<F> {
    functions: StringHashMap<F>,
}

impl<F> View for FunctionTable<F> {
    type V = Map<Seq<char>, F>;

    closed spec fn view(&self) -> Map<Seq<char>, F> {
        self.functions@
    }
}

impl<F> FunctionTable<F> {
    /// No function yet.
    pub fn new() -> (table: Self)
        ensures
            table@ == Map::<Seq<char>, F>::empty(),
    {
        FunctionTable { functions: StringHashMap::new() }
    }

    /// `function name(...) { ... }`: defines `name`, in place of an earlier function of that
    /// name.
    pub fn define(&mut self, name: &str, function: F)
        ensures
            final(self)@ == old(self)@.insert(name@, function),
    {
        self.functions.insert(String::from_str(name), function);
    }

    /// The function called `name`; an error when none was defined.
    pub fn lookup(&self, name: &str) -> (r: Result<&F, RuntimeError>)
        ensures
            if self@.contains_key(name@) {
                r matches Ok(f) && *f == self@[name@]
            } else {
                r matches Err(e) && e.message@ == undefined_function_message(name@)
            },
    {
        match self.functions.get(name) {
            Some(f) => Ok(f),
            None => Err(undefined_function(name)),
        }
    }
}

/// The functions that every program has.
pub enum Builtin {
    /// `wait(seconds)`
    Wait,
    /// `random(minimum, maximum)`
    Random,
}

/// The built-in function called `name`, if there is one: a program's own function of that name
/// is never called.
pub fn builtin(name: &str) -> (b: Option<Builtin>)
    ensures
        name@ == "wait"@ <==> b matches Some(Builtin::Wait),
        name@ == "random"@ <==> b matches Some(Builtin::Random),
{
    proof {
        reveal_strlit("wait");
        reveal_strlit("random");
        assert("wait"@.len() != "random"@.len());
    }
    let name = String::from_str(name);
    if name == String::from_str("wait") {
        Some(Builtin::Wait)
    } else if name == String::from_str("random") {
        Some(Builtin::Random)
    } else {
        None
    }
}

/// A built-in function takes a fixed number of arguments: `wait` one, `random` two.
pub fn check_builtin_arguments(function: &Builtin, count: usize) -> (r: Result<(), RuntimeError>)
    ensures
        match function {
            Builtin::Wait => if count == 1 {
                r is Ok
            } else {
                r matches Err(e) && e.message@ == "wait() expects exactly one argument"@
            },
            Builtin::Random => if count == 2 {
                r is Ok
            } else {
                r matches Err(e) && e.message@ == "random() expects exactly two arguments"@
            },
        },
{
    match function {
        Builtin::Wait => if count != 1 {
            Err(runtime_error(String::from_str("wait() expects exactly one argument")))
        } else {
            Ok(())
        },
        Builtin::Random => if count != 2 {
            Err(runtime_error(String::from_str("random() expects exactly two arguments")))
        } else {
            Ok(())
        },
    }
}

// ---------------------------------------------------------------------------
// Control flow
// ---------------------------------------------------------------------------

/// Why the statements of a block stopped before their end: an error, a `give` with its value,
/// or a `restart` or `end` of the loop of that name.
pub enum ControlFlow<V> {
    Runtime(RuntimeError),
    Return(V),
    Restart(String),
    End(String),
}

impl<V> From<RuntimeError> for ControlFlow<V> {
    fn from(error: RuntimeError) -> (flow: Self) {
        ControlFlow::Runtime(error)
    }
}

impl<V> vstd::std_specs::convert::FromSpecImpl<RuntimeError> for ControlFlow<V> {
    open spec fn obeys_from_spec() -> bool {
        true
    }

    open spec fn from_spec(error: RuntimeError) -> ControlFlow<V> {
        ControlFlow::Runtime(error)
    }
}

/// What a named loop does after one run of its body.
pub enum LoopStep<V> {
    /// Run the body again.
    Repeat,
    /// Leave the loop; the statements after it run.
    Finish,
    /// Leave the loop, and hand this on to the statements around it.
    Propagate(ControlFlow<V>),
}

/// A named loop runs its body again when the body completes or restarts this loop, and stops
/// at its own `end`; a `restart` or `end` of another loop, an error or a `give` leaves it.
pub fn loop_step<V>(name: &str, outcome: Result<(), ControlFlow<V>>) -> (step: LoopStep<V>)
    ensures
        match outcome {
            Ok(()) => step is Repeat,
            Err(ControlFlow::Restart(n)) => if n@ == name@ {
                step is Repeat
            } else {
                step == LoopStep::Propagate(ControlFlow::<V>::Restart(n))
            },
            Err(ControlFlow::End(n)) => if n@ == name@ {
                step is Finish
            } else {
                step == LoopStep::Propagate(ControlFlow::<V>::End(n))
            },
            Err(other) => step == LoopStep::Propagate(other),
        },
{
    match outcome {
        // A named loop repeats until it receives its own end.
        Ok(()) => LoopStep::Repeat,
        Err(ControlFlow::Restart(restart_name)) => {
            if restart_name == String::from_str(name) {
                LoopStep::Repeat
            } else {
                LoopStep::Propagate(ControlFlow::Restart(restart_name))
            }
        },
        Err(ControlFlow::End(end_name)) => {
            if end_name == String::from_str(name) {
                LoopStep::Finish
            } else {
                LoopStep::Propagate(ControlFlow::End(end_name))
            }
        },
        Err(other) => LoopStep::Propagate(other),
    }
}

pub open spec fn give_outside_message() -> Seq<char> {
    "'give' can only be used inside a function"@
}

pub open spec fn restart_outside_message(name: Seq<char>) -> Seq<char> {
    "Cannot restart '"@ + name + "' outside a loop"@
}

pub open spec fn end_outside_message(name: Seq<char>) -> Seq<char> {
    "Cannot end '"@ + name + "' outside a loop"@
}

/// The result of a whole program, from how its statements stopped: a `give`, `restart` or
/// `end` that reaches the top is an error.
pub fn finish_program<V>(outcome: Result<(), ControlFlow<V>>) -> (r: Result<(), RuntimeError>)
    ensures
        match outcome {
            Ok(()) => r is Ok,
            Err(ControlFlow::Runtime(e)) => r == Err::<(), RuntimeError>(e),
            Err(ControlFlow::Return(_)) => r matches Err(e) && e.message@ == give_outside_message(),
            Err(ControlFlow::Restart(n)) => r matches Err(e) && e.message@ == restart_outside_message(n@),
            Err(ControlFlow::End(n)) => r matches Err(e) && e.message@ == end_outside_message(n@),
        },
{
    match outcome {
        Ok(()) => Ok(()),
        Err(ControlFlow::Runtime(error)) => Err(error),
        Err(ControlFlow::Return(_)) => Err(runtime_error(String::from_str("'give' can only be used inside a function"))),
        Err(ControlFlow::Restart(name)) => Err(quoted_message("Cannot restart '", name.as_str(), "' outside a loop")),
        Err(ControlFlow::End(name)) => Err(quoted_message("Cannot end '", name.as_str(), "' outside a loop")),
    }
}

pub open spec fn restart_in_call_message(name: Seq<char>) -> Seq<char> {
    "Cannot restart '"@ + name + "' from inside a function"@
}

pub open spec fn end_in_call_message(name: Seq<char>) -> Seq<char> {
    "Cannot end '"@ + name + "' from inside a function"@
}

/// The result of a function call, from how its body stopped: the value of its `give`, or none
/// (the call gives `nothing`) when the body ran to its end. A `restart` or `end` may not leave
/// a function.
pub fn finish_call<V>(outcome: Result<(), ControlFlow<V>>) -> (r: Result<Option<V>, RuntimeError>)
    ensures
        match outcome {
            Ok(()) => r == Ok::<Option<V>, RuntimeError>(None),
            Err(ControlFlow::Return(v)) => r == Ok::<Option<V>, RuntimeError>(Some(v)),
            Err(ControlFlow::Runtime(e)) => r == Err::<Option<V>, RuntimeError>(e),
            Err(ControlFlow::Restart(n)) => r matches Err(e) && e.message@ == restart_in_call_message(n@),
            Err(ControlFlow::End(n)) => r matches Err(e) && e.message@ == end_in_call_message(n@),
        },
{
    match outcome {
        Ok(()) => Ok(None),
        Err(ControlFlow::Return(value)) => Ok(Some(value)),
        Err(ControlFlow::Runtime(error)) => Err(error),
        Err(ControlFlow::Restart(name)) => Err(quoted_message("Cannot restart '", name.as_str(), "' from inside a function")),
        Err(ControlFlow::End(name)) => Err(quoted_message("Cannot end '", name.as_str(), "' from inside a function")),
    }
}

} // verus!

use vstd::prelude::*;

verus! {

/// A value of a running program: text, a number, a boolean, a list of values, or `nothing`.
/// Numbers are held in `N`; the library itself never computes with them.
#[derive(Debug, PartialEq)]
pub enum Value<N> {
    Text(String),
    Number(N),
    Boolean(bool),
    List(Vec<Value<N>>),
    Nothing,
}

/// The mathematical form of a value.
pub enum ValueModel<N> {
    Text(Seq<char>),
    Number(N),
    Boolean(bool),
    List(Seq<ValueModel<N>>),
    Nothing,
}

/// The model of a value.
pub open spec fn value_model<N>(v: Value<N>) -> ValueModel<N>
    decreases v,
{
    match v {
        Value::Text(t) => ValueModel::Text(t@),
        Value::Number(n) => ValueModel::Number(n),
        Value::Boolean(b) => ValueModel::Boolean(b),
        Value::List(items) => ValueModel::List(values_model(items@)),
        Value::Nothing => ValueModel::Nothing,
    }
}

/// The models of a sequence of values, item by item.
pub open spec fn values_model<N>(vs: Seq<Value<N>>) -> Seq<ValueModel<N>>
    decreases vs,
{
    if vs.len() == 0 {
        Seq::empty()
    } else {
        values_model(vs.drop_last()).push(value_model(vs.last()))
    }
}

impl<N> View for Value<N> {
    type V = ValueModel<N>;

    open spec fn view(&self) -> ValueModel<N> {
        value_model(*self)
    }
}

pub proof fn lemma_values_model_push<N>(vs: Seq<Value<N>>, v: Value<N>)
    ensures
        values_model(vs.push(v)) == values_model(vs).push(v@),
{
    assert(vs.push(v).drop_last() =~= vs);
}

pub proof fn lemma_values_model_len<N>(vs: Seq<Value<N>>)
    ensures
        values_model(vs).len() == vs.len(),
    decreases vs.len(),
{
    if vs.len() > 0 {
        lemma_values_model_len(vs.drop_last());
    }
}

pub proof fn lemma_values_model_index<N>(vs: Seq<Value<N>>, i: int)
    requires
        0 <= i < vs.len(),
    ensures
        values_model(vs)[i] == vs[i]@,
    decreases vs.len(),
{
    lemma_values_model_len(vs.drop_last());
    if i < vs.len() - 1 {
        lemma_values_model_index(vs.drop_last(), i);
    }
}

/// A copy of a value, list items and all.
pub fn copy_value<N: Copy>(value: &Value<N>) -> (copy: Value<N>)
    ensures
        copy@ == value@,
    decreases value,
{
    match value {
        Value::Text(t) => Value::Text(t.clone()),
        Value::Number(n) => Value::Number(*n),
        Value::Boolean(b) => Value::Boolean(*b),
        Value::List(items) => Value::List(copy_values(items)),
        Value::Nothing => Value::Nothing,
    }
}

/// A copy of each of a list's values.
pub fn copy_values<N: Copy>(items: &Vec<Value<N>>) -> (copy: Vec<Value<N>>)
    ensures
        values_model(copy@) == values_model(items@),
    decreases items,
{
    let mut copy: Vec<Value<N>> = Vec::new();
    for i in 0..items.len()
        invariant
            values_model(copy@) == values_model(items@.take(i as int)),
    {
        proof {
            assert(decreases_to!(items => items@));
            assert(decreases_to!(items@ => items@[i as int]));
        }
        let item = copy_value(&items[i]);
        proof {
            lemma_values_model_push(copy@, item);
            assert(items@.take(i + 1).drop_last() =~= items@.take(i as int));
        }
        copy.push(item);
    }
    assert(items@.take(items@.len() as int) =~= items@);
    copy
}


/// How `write` shows a value whose numbers are already written out: text as it is, booleans
/// as `true` or `false`, lists in square brackets with their items shown and separated by
/// `, `, and `nothing`.
pub open spec fn shown(v: ValueModel<String>) -> Seq<char>
    decreases v,
{
    match v {
        ValueModel::Text(t) => t,
        ValueModel::Number(n) => n@,
        ValueModel::Boolean(b) => if b { "true"@ } else { "false"@ },
        ValueModel::List(items) => "["@ + shown_items(items) + "]"@,
        ValueModel::Nothing => "nothing"@,
    }
}

/// The items of a list, each shown, separated by `, `.
pub open spec fn shown_items(items: Seq<ValueModel<String>>) -> Seq<char>
    decreases items,
{
    if items.len() == 0 {
        Seq::empty()
    } else if items.len() == 1 {
        shown(items[0])
    } else {
        shown_items(items.drop_last()) + ", "@ + shown(items.last())
    }
}

impl Value<String> {
    /// The text that `write` prints for this value, its numbers already written out.
    pub fn display(&self) -> (text: String)
        ensures
            text@ == shown(self@),
        decreases self,
    {
        match self {
            Value::Text(t) => t.clone(),
            Value::Number(n) => n.clone(),
            Value::Boolean(b) => if *b {
                String::from_str("true")
            } else {
                String::from_str("false")
            },
            Value::List(items) => {
                let ghost models = values_model(items@);
                proof {
                    lemma_values_model_len(items@);
                }
                let mut text = String::from_str("[");
                for i in 0..items.len()
                    invariant
                        *self == Value::<String>::List(*items),
                        models == values_model(items@),
                        models.len() == items@.len(),
                        text@ == "["@ + shown_items(models.take(i as int)),
                {
                    proof {
                        assert(decreases_to!(*self => self->List_0));
                        assert(decreases_to!(items => items@));
                        assert(decreases_to!(items@ => items@[i as int]));
                        lemma_values_model_index(items@, i as int);
                        assert(models.take(i + 1).drop_last() =~= models.take(i as int));
                        assert(models.take(i + 1).last() == models[i as int]);
                    }
                    if i > 0 {
                        text.append(", ");
                    }
                    let item = items[i].display();
                    text.append(item.as_str());
                    proof {
                        if i == 0 {
                            assert(models.take(1) =~= seq![models[0]]);
                        }
                    }
                }
                text.append("]");
                assert(models.take(items@.len() as int) =~= models);
                text
            },
            Value::Nothing => String::from_str("nothing"),
        }
    }
}

} // verus!

//! Runtime values, and the mathematical value each one stands for.

use vstd::prelude::*;
use vstd::std_specs::cmp::PartialEqSpecImpl;
use crate::parser::ast::{clone_names, clone_statements, Statement, StatementView};

verus! {

/// A value of the language. A `Function` holds its parameter names, its
/// body and its own scope, which lies inside the scope that the function was
/// made in; a `HashMap` holds its pairs in the order in which their keys first
/// came.
#[derive(Debug)]
pub enum Object {
    Null,
    Integer(i64),
    Bool(bool),
    Str(String),
    Array(Vec<Object>),
    HashMap(Vec<(Object, Object)>),
    Function(Vec<String>, Vec<Statement>, usize),
    BuiltInFunction(String),
}

/// What an [`Object`] stands for: the same value over sequences.
pub enum ObjectView {
    Null,
    Integer(i64),
    Bool(bool),
    Str(Seq<char>),
    Array(Seq<ObjectView>),
    HashMap(Seq<(ObjectView, ObjectView)>),
    Function(Seq<Seq<char>>, Seq<StatementView>, usize),
    BuiltInFunction(Seq<char>),
}

impl Object {
    /// The value this object stands for.
    pub open spec fn model(&self) -> ObjectView
        decreases self,
    {
        match self {
            Object::Null => ObjectView::Null,
            Object::Integer(value) => ObjectView::Integer(*value),
            Object::Bool(value) => ObjectView::Bool(*value),
            Object::Str(value) => ObjectView::Str(value@),
            Object::Array(items) => ObjectView::Array(
                Seq::new(
                    items@.len(),
                    |i: int|
                        if 0 <= i < items@.len() {
                            items@[i].model()
                        } else {
                            arbitrary()
                        },
                ),
            ),
            Object::HashMap(pairs) => ObjectView::HashMap(
                Seq::new(
                    pairs@.len(),
                    |i: int|
                        if 0 <= i < pairs@.len() {
                            (pairs@[i].0.model(), pairs@[i].1.model())
                        } else {
                            arbitrary()
                        },
                ),
            ),
            Object::Function(parameters, body, scope) => ObjectView::Function(
                parameters.deep_view(),
                body.deep_view(),
                *scope,
            ),
            Object::BuiltInFunction(name) => ObjectView::BuiltInFunction(name@),
        }
    }
}

impl View for Object {
    type V = ObjectView;

    open spec fn view(&self) -> ObjectView {
        self.model()
    }
}

impl DeepView for Object {
    type V = ObjectView;

    open spec fn deep_view(&self) -> ObjectView {
        self.model()
    }
}

/// The model of an array or a hash map is the value over the deep view of
/// what it holds.
pub proof fn lemma_model_unfolds(object: Object)
    ensures
        object matches Object::Array(items) ==> object@ == ObjectView::Array(items.deep_view()),
        object matches Object::HashMap(pairs) ==> object@ == ObjectView::HashMap(
            pairs.deep_view(),
        ),
{
    match object {
        Object::Array(items) => {
            assert(object@->Array_0 =~= items.deep_view());
        },
        Object::HashMap(pairs) => {
            assert(object@->HashMap_0 =~= pairs.deep_view());
        },
        _ => {},
    }
}

/// Whether a value can be the key of a hash map.
pub open spec fn hashable(object: ObjectView) -> bool {
    object is Null || object is Integer || object is Bool || object is Str
}

/// Where the first pair with the key `key` stands among `pairs` from `from`
/// on; the length of `pairs` where none has it.
pub open spec fn first_index(pairs: Seq<(ObjectView, ObjectView)>, key: ObjectView, from: nat)
    -> nat
    decreases pairs.len() - from,
{
    if from >= pairs.len() {
        pairs.len()
    } else if pairs[from as int].0 == key {
        from
    } else {
        first_index(pairs, key, from + 1)
    }
}

/// The value that `pairs` holds under `key`; none under a key that is not
/// hashable.
pub open spec fn lookup(pairs: Seq<(ObjectView, ObjectView)>, key: ObjectView) -> Option<
    ObjectView,
> {
    let index = first_index(pairs, key, 0);
    if hashable(key) && index < pairs.len() {
        Some(pairs[index as int].1)
    } else {
        None
    }
}

/// `pairs` with `value` under `key`: in the place of the pair that had the
/// key, or else behind the last pair.
pub open spec fn insert(
    pairs: Seq<(ObjectView, ObjectView)>,
    key: ObjectView,
    value: ObjectView,
) -> Seq<(ObjectView, ObjectView)> {
    let index = first_index(pairs, key, 0);
    if index < pairs.len() {
        pairs.update(index as int, (key, value))
    } else {
        pairs.push((key, value))
    }
}

/// Whether no key stands twice among `pairs` and every key is hashable.
pub open spec fn distinct_keys(pairs: Seq<(ObjectView, ObjectView)>) -> bool {
    &&& forall|i: int| 0 <= i < pairs.len() ==> hashable(#[trigger] pairs[i].0)
    &&& forall|i: int, j: int|
        0 <= i < j < pairs.len() ==> (#[trigger] pairs[i]).0 != (#[trigger] pairs[j]).0
}

/// The first pair with a key stands where no earlier pair has the key.
pub proof fn lemma_first_index(pairs: Seq<(ObjectView, ObjectView)>, key: ObjectView, from: nat)
    requires
        from <= pairs.len(),
    ensures
        from <= first_index(pairs, key, from) <= pairs.len(),
        first_index(pairs, key, from) < pairs.len() ==> pairs[first_index(
            pairs,
            key,
            from,
        ) as int].0 == key,
        forall|j: int| from <= j < first_index(pairs, key, from) ==> (#[trigger] pairs[j]).0 != key,
    decreases pairs.len() - from,
{
    if from < pairs.len() && pairs[from as int].0 != key {
        lemma_first_index(pairs, key, from + 1);
    }
}

/// Where the first pair with a key stands, counted from any place at or
/// before it.
proof fn lemma_first_index_is(
    pairs: Seq<(ObjectView, ObjectView)>,
    key: ObjectView,
    from: nat,
    place: nat,
)
    requires
        from <= place <= pairs.len(),
        forall|j: int| from <= j < place ==> (#[trigger] pairs[j]).0 != key,
        place < pairs.len() ==> pairs[place as int].0 == key,
    ensures
        first_index(pairs, key, from) == place,
    decreases pairs.len() - from,
{
    if from < place {
        assert(pairs[from as int].0 != key);
        lemma_first_index_is(pairs, key, from + 1, place);
    }
}

/// The last write wins: what was put under a key is what is found under it.
pub proof fn lemma_insert_then_lookup(
    pairs: Seq<(ObjectView, ObjectView)>,
    key: ObjectView,
    value: ObjectView,
)
    requires
        hashable(key),
    ensures
        lookup(insert(pairs, key, value), key) == Some(value),
{
    lemma_first_index(pairs, key, 0);
    let place = first_index(pairs, key, 0);
    let after = insert(pairs, key, value);
    assert forall|j: int| 0 <= j < place implies (#[trigger] after[j]).0 != key by {
        assert(pairs[j].0 != key);
    }
    lemma_first_index_is(after, key, 0, place);
}

/// Putting a value under one key changes what is found under no other key.
pub proof fn lemma_insert_keeps_other_keys(
    pairs: Seq<(ObjectView, ObjectView)>,
    key: ObjectView,
    value: ObjectView,
    other: ObjectView,
)
    requires
        other != key,
    ensures
        lookup(insert(pairs, key, value), other) == lookup(pairs, other),
{
    lemma_first_index(pairs, key, 0);
    lemma_first_index(pairs, other, 0);
    let place = first_index(pairs, other, 0);
    let after = insert(pairs, key, value);
    assert forall|j: int| 0 <= j < place implies (#[trigger] after[j]).0 != other by {
        assert(pairs[j].0 != other);
    }
    if place < pairs.len() {
        lemma_first_index_is(after, other, 0, place);
    } else {
        assert forall|j: int| 0 <= j < after.len() implies (#[trigger] after[j]).0 != other by {
            if j < pairs.len() {
                assert(pairs[j].0 != other);
            }
        }
        lemma_first_index_is(after, other, 0, after.len());
    }
}

/// A hash map grown by `insert` holds hashable keys only, and none twice.
pub proof fn lemma_insert_keeps_distinct_keys(
    pairs: Seq<(ObjectView, ObjectView)>,
    key: ObjectView,
    value: ObjectView,
)
    requires
        distinct_keys(pairs),
        hashable(key),
    ensures
        distinct_keys(insert(pairs, key, value)),
{
    lemma_first_index(pairs, key, 0);
    let place = first_index(pairs, key, 0);
    let after = insert(pairs, key, value);
    assert forall|i: int| 0 <= i < after.len() implies hashable(#[trigger] after[i].0) by {
        if i < pairs.len() && i != place {
            assert(hashable(pairs[i].0));
        }
    }
    assert forall|i: int, j: int| 0 <= i < j < after.len() implies (#[trigger] after[i]).0 != (
    #[trigger] after[j]).0 by {
        if place < pairs.len() {
            if i == place {
                assert(pairs[i].0 != pairs[j].0);
            } else if j == place {
                assert(pairs[i].0 != pairs[j].0);
            } else {
                assert(pairs[i].0 != pairs[j].0);
            }
        } else {
            if j < pairs.len() {
                assert(pairs[i].0 != pairs[j].0);
            } else {
                assert(pairs[i].0 != key);
            }
        }
    }
}

/// Whether `pairs` holds under the key `key` a value that `value` equals.
pub open spec fn found_equal(value: ObjectView, key: ObjectView, pairs: Seq<
    (ObjectView, ObjectView),
>) -> bool
    decreases value, 1nat,
{
    let place = first_index(pairs, key, 0);
    hashable(key) && place < pairs.len() && objects_equal(value, pairs[place as int].1)
}

/// Whether `pairs` holds under the key `key` a value that equals `value`.
pub open spec fn holds_equal(pairs: Seq<(ObjectView, ObjectView)>, key: ObjectView, value: ObjectView)
    -> bool
    decreases pairs, 1nat,
{
    let place = first_index(pairs, key, 0);
    hashable(key) && place < pairs.len() && objects_equal(pairs[place as int].1, value)
}

/// Equality of values. Integers, booleans, strings and null compare by what
/// they hold; arrays item by item; built-ins by name; functions by their own
/// scope, never by their text. Two hash maps are equal if they hold as many
/// pairs and each holds under every key of the other an equal value, in
/// whatever order.
pub open spec fn objects_equal(a: ObjectView, b: ObjectView) -> bool
    decreases a, 0nat,
{
    match (a, b) {
        (ObjectView::Null, ObjectView::Null) => true,
        (ObjectView::Integer(x), ObjectView::Integer(y)) => x == y,
        (ObjectView::Bool(x), ObjectView::Bool(y)) => x == y,
        (ObjectView::Str(x), ObjectView::Str(y)) => x == y,
        (ObjectView::Array(x), ObjectView::Array(y)) => {
            &&& x.len() == y.len()
            &&& forall|i: int| 0 <= i < x.len() ==> objects_equal(#[trigger] x[i], y[i])
        },
        (ObjectView::HashMap(x), ObjectView::HashMap(y)) => {
            &&& x.len() == y.len()
            &&& forall|i: int|
                0 <= i < x.len() ==> found_equal((#[trigger] x[i]).1, x[i].0, y)
            &&& forall|i: int|
                0 <= i < y.len() ==> holds_equal(x, (#[trigger] y[i]).0, y[i].1)
        },
        (ObjectView::Function(_, _, x), ObjectView::Function(_, _, y)) => x == y,
        (ObjectView::BuiltInFunction(x), ObjectView::BuiltInFunction(y)) => x == y,
        _ => false,
    }
}

/// Whether every hash map in a value holds hashable keys only, and none
/// twice.
pub open spec fn well_formed(object: ObjectView) -> bool
    decreases object,
{
    match object {
        ObjectView::Array(items) => forall|i: int|
            0 <= i < items.len() ==> well_formed(#[trigger] items[i]),
        ObjectView::HashMap(pairs) => {
            &&& distinct_keys(pairs)
            &&& forall|i: int| 0 <= i < pairs.len() ==> well_formed((#[trigger] pairs[i]).1)
        },
        _ => true,
    }
}

/// Every well-formed value equals itself.
pub proof fn lemma_equal_to_itself(object: ObjectView)
    requires
        well_formed(object),
    ensures
        objects_equal(object, object),
    decreases object,
{
    match object {
        ObjectView::Array(items) => {
            assert forall|i: int| 0 <= i < items.len() implies objects_equal(
                #[trigger] items[i],
                items[i],
            ) by {
                lemma_equal_to_itself(items[i]);
            }
        },
        ObjectView::HashMap(pairs) => {
            assert forall|i: int| 0 <= i < pairs.len() implies found_equal(
                (#[trigger] pairs[i]).1,
                pairs[i].0,
                pairs,
            ) && holds_equal(pairs, pairs[i].0, pairs[i].1) by {
                assert forall|j: int| 0 <= j < i implies (#[trigger] pairs[j]).0 != pairs[i].0 by {
                    assert(pairs[j].0 != pairs[i].0);
                }
                lemma_first_index_is(pairs, pairs[i].0, 0, i as nat);
                assert(hashable(pairs[i].0));
                lemma_equal_to_itself(pairs[i].1);
            }
        },
        _ => {},
    }
}

/// Equality does not depend on which value stands first.
pub proof fn lemma_equality_symmetric(a: ObjectView, b: ObjectView)
    ensures
        objects_equal(a, b) == objects_equal(b, a),
    decreases a,
{
    match (a, b) {
        (ObjectView::Array(x), ObjectView::Array(y)) => {
            if x.len() == y.len() {
                assert forall|i: int| 0 <= i < x.len() implies objects_equal(#[trigger] x[i], y[i])
                    == objects_equal(y[i], x[i]) by {
                    lemma_equality_symmetric(x[i], y[i]);
                }
                if objects_equal(a, b) {
                    assert forall|i: int| 0 <= i < y.len() implies objects_equal(
                        #[trigger] y[i],
                        x[i],
                    ) by {
                        assert(objects_equal(x[i], y[i]));
                    }
                }
                if objects_equal(b, a) {
                    assert forall|i: int| 0 <= i < x.len() implies objects_equal(
                        #[trigger] x[i],
                        y[i],
                    ) by {
                        assert(objects_equal(y[i], x[i]));
                    }
                }
            }
        },
        (ObjectView::HashMap(x), ObjectView::HashMap(y)) => {
            if x.len() == y.len() {
                assert forall|i: int| 0 <= i < x.len() implies found_equal(
                    (#[trigger] x[i]).1,
                    x[i].0,
                    y,
                ) == holds_equal(y, x[i].0, x[i].1) by {
                    let place = first_index(y, x[i].0, 0);
                    if place < y.len() {
                        lemma_equality_symmetric(x[i].1, y[place as int].1);
                    }
                }
                assert forall|i: int| 0 <= i < y.len() implies holds_equal(
                    x,
                    (#[trigger] y[i]).0,
                    y[i].1,
                ) == found_equal(y[i].1, y[i].0, x) by {
                    let place = first_index(x, y[i].0, 0);
                    if place < x.len() {
                        lemma_equality_symmetric(x[place as int].1, y[i].1);
                    }
                }
                if objects_equal(a, b) {
                    assert forall|i: int| 0 <= i < y.len() implies found_equal(
                        (#[trigger] y[i]).1,
                        y[i].0,
                        x,
                    ) by {
                        assert(holds_equal(x, y[i].0, y[i].1));
                    }
                    assert forall|i: int| 0 <= i < x.len() implies holds_equal(
                        y,
                        (#[trigger] x[i]).0,
                        x[i].1,
                    ) by {
                        assert(found_equal(x[i].1, x[i].0, y));
                    }
                }
                if objects_equal(b, a) {
                    assert forall|i: int| 0 <= i < x.len() implies found_equal(
                        (#[trigger] x[i]).1,
                        x[i].0,
                        y,
                    ) by {
                        assert(holds_equal(y, x[i].0, x[i].1));
                    }
                    assert forall|i: int| 0 <= i < y.len() implies holds_equal(
                        x,
                        (#[trigger] y[i]).0,
                        y[i].1,
                    ) by {
                        assert(found_equal(y[i].1, y[i].0, x));
                    }
                }
            }
        },
        _ => {},
    }
}

/// A hashable value equals exactly itself.
pub proof fn lemma_hashable_equality(a: ObjectView, b: ObjectView)
    requires
        hashable(a) || hashable(b),
    ensures
        objects_equal(a, b) == (a == b),
{
}

/// A copy of a list of values.
pub fn clone_objects(objects: &Vec<Object>) -> (copy: Vec<Object>)
    ensures
        copy.deep_view() == objects.deep_view(),
    decreases objects,
{
    let mut copy: Vec<Object> = Vec::new();
    let mut i: usize = 0;
    while i < objects.len()
        invariant
            i <= objects.len(),
            copy@.len() == i,
            forall|j: int| 0 <= j < i ==> copy@[j]@ == objects@[j]@,
        decreases objects.len() - i,
    {
        copy.push(objects[i].duplicate());
        i += 1;
    }
    assert(copy.deep_view() =~= objects.deep_view());
    copy
}

impl Object {
    /// A deep copy: a new object that stands for the same value.
    pub fn duplicate(&self) -> (copy: Object)
        ensures
            copy@ == self@,
        decreases self,
    {
        proof {
            lemma_model_unfolds(*self);
        }
        let copy = match self {
            Object::Null => Object::Null,
            Object::Integer(value) => Object::Integer(*value),
            Object::Bool(value) => Object::Bool(*value),
            Object::Str(value) => Object::Str(value.clone()),
            Object::Array(items) => Object::Array(clone_objects(items)),
            Object::HashMap(pairs) => {
                let mut copy: Vec<(Object, Object)> = Vec::new();
                let mut i: usize = 0;
                while i < pairs.len()
                    invariant
                        i <= pairs.len(),
                        copy@.len() == i,
                        self is HashMap && self->HashMap_0 == *pairs,
                        forall|j: int|
                            0 <= j < i ==> copy@[j].0@ == pairs@[j].0@ && copy@[j].1@
                                == pairs@[j].1@,
                    decreases pairs.len() - i,
                {
                    copy.push((pairs[i].0.duplicate(), pairs[i].1.duplicate()));
                    i += 1;
                }
                assert(copy.deep_view() =~= pairs.deep_view());
                Object::HashMap(copy)
            },
            Object::Function(parameters, body, scope) => Object::Function(
                clone_names(parameters),
                clone_statements(body),
                *scope,
            ),
            Object::BuiltInFunction(name) => Object::BuiltInFunction(name.clone()),
        };
        proof {
            lemma_model_unfolds(copy);
        }
        copy
    }

    /// Whether this value can be the key of a hash map.
    pub fn is_hashable(&self) -> (r: bool)
        ensures
            r == hashable(self@),
    {
        match self {
            Object::Null => true,
            Object::Integer(_) => true,
            Object::Bool(_) => true,
            Object::Str(_) => true,
            _ => false,
        }
    }

    /// Whether this value is the hashable value `key`.
    pub fn is_key(&self, key: &Object) -> (same: bool)
        requires
            hashable(key@),
        ensures
            same == (self@ == key@),
    {
        match key {
            Object::Null => matches!(self, Object::Null),
            Object::Integer(wanted) => match self {
                Object::Integer(found) => *found == *wanted,
                _ => false,
            },
            Object::Bool(wanted) => match self {
                Object::Bool(found) => *found == *wanted,
                _ => false,
            },
            Object::Str(wanted) => match self {
                Object::Str(found) => *found == *wanted,
                _ => false,
            },
            _ => false,
        }
    }

    /// Whether two values are equal.
    pub fn equals(&self, other: &Object) -> (same: bool)
        ensures
            same == objects_equal(self@, other@),
        decreases self,
    {
        proof {
            lemma_model_unfolds(*self);
            lemma_model_unfolds(*other);
        }
        match self {
            Object::Null => matches!(other, Object::Null),
            Object::Integer(x) => match other {
                Object::Integer(y) => *x == *y,
                _ => false,
            },
            Object::Bool(x) => match other {
                Object::Bool(y) => *x == *y,
                _ => false,
            },
            Object::Str(x) => match other {
                Object::Str(y) => *x == *y,
                _ => false,
            },
            Object::BuiltInFunction(x) => match other {
                Object::BuiltInFunction(y) => *x == *y,
                _ => false,
            },
            Object::Function(_, _, x) => match other {
                Object::Function(_, _, y) => *x == *y,
                _ => false,
            },
            Object::Array(x) => match other {
                Object::Array(y) => {
                    if x.len() != y.len() {
                        return false;
                    }
                    let mut i: usize = 0;
                    while i < x.len()
                        invariant
                            i <= x.len(),
                            x.len() == y.len(),
                            self is Array && self->Array_0 == *x,
                            self@ == ObjectView::Array(x.deep_view()),
                            other@ == ObjectView::Array(y.deep_view()),
                            forall|j: int|
                                0 <= j < i ==> objects_equal(
                                    #[trigger] x.deep_view()[j],
                                    y.deep_view()[j],
                                ),
                        decreases x.len() - i,
                    {
                        if !x[i].equals(&y[i]) {
                            assert(!objects_equal(x.deep_view()[i as int], y.deep_view()[i as int]));
                            return false;
                        }
                        i += 1;
                    }
                    true
                },
                _ => false,
            },
            Object::HashMap(x) => match other {
                Object::HashMap(y) => {
                    if x.len() != y.len() {
                        return false;
                    }
                    let mut i: usize = 0;
                    while i < x.len()
                        invariant
                            i <= x.len(),
                            x.len() == y.len(),
                            self is HashMap && self->HashMap_0 == *x,
                            self@ == ObjectView::HashMap(x.deep_view()),
                            other@ == ObjectView::HashMap(y.deep_view()),
                            forall|j: int|
                                0 <= j < i ==> found_equal(
                                    (#[trigger] x.deep_view()[j]).1,
                                    x.deep_view()[j].0,
                                    y.deep_view(),
                                ),
                        decreases x.len() - i,
                    {
                        let found = if x[i].0.is_hashable() {
                            match find(y, &x[i].0) {
                                Some(place) => x[i].1.equals(&y[place].1),
                                None => false,
                            }
                        } else {
                            false
                        };
                        if !found {
                            assert(!found_equal(
                                x.deep_view()[i as int].1,
                                x.deep_view()[i as int].0,
                                y.deep_view(),
                            ));
                            return false;
                        }
                        i += 1;
                    }
                    let mut k: usize = 0;
                    while k < y.len()
                        invariant
                            k <= y.len(),
                            x.len() == y.len(),
                            self is HashMap && self->HashMap_0 == *x,
                            self@ == ObjectView::HashMap(x.deep_view()),
                            other@ == ObjectView::HashMap(y.deep_view()),
                            forall|j: int|
                                0 <= j < x.len() ==> found_equal(
                                    (#[trigger] x.deep_view()[j]).1,
                                    x.deep_view()[j].0,
                                    y.deep_view(),
                                ),
                            forall|j: int|
                                0 <= j < k ==> holds_equal(
                                    x.deep_view(),
                                    (#[trigger] y.deep_view()[j]).0,
                                    y.deep_view()[j].1,
                                ),
                        decreases y.len() - k,
                    {
                        let held = if y[k].0.is_hashable() {
                            match find(x, &y[k].0) {
                                Some(place) => x[place].1.equals(&y[k].1),
                                None => false,
                            }
                        } else {
                            false
                        };
                        if !held {
                            assert(!holds_equal(
                                x.deep_view(),
                                y.deep_view()[k as int].0,
                                y.deep_view()[k as int].1,
                            ));
                            return false;
                        }
                        k += 1;
                    }
                    true
                },
                _ => false,
            },
        }
    }
}

/// Where the first pair with the key `key` stands among `pairs`.
pub fn find(pairs: &Vec<(Object, Object)>, key: &Object) -> (found: Option<usize>)
    requires
        hashable(key@),
    ensures
        match found {
            Some(index) => index < pairs.len() && index == first_index(
                pairs.deep_view(),
                key@,
                0,
            ),
            None => first_index(pairs.deep_view(), key@, 0) == pairs.len(),
        },
{
    let mut i: usize = 0;
    while i < pairs.len()
        invariant
            i <= pairs.len(),
            hashable(key@),
            first_index(pairs.deep_view(), key@, 0) == first_index(
                pairs.deep_view(),
                key@,
                i as nat,
            ),
        decreases pairs.len() - i,
    {
        if pairs[i].0.is_key(key) {
            return Some(i);
        }
        i += 1;
    }
    None
}

/// The character that writes a decimal digit.
pub open spec fn digit_char(digit: int) -> char {
    if digit == 0 {
        '0'
    } else if digit == 1 {
        '1'
    } else if digit == 2 {
        '2'
    } else if digit == 3 {
        '3'
    } else if digit == 4 {
        '4'
    } else if digit == 5 {
        '5'
    } else if digit == 6 {
        '6'
    } else if digit == 7 {
        '7'
    } else if digit == 8 {
        '8'
    } else {
        '9'
    }
}

/// A natural number in decimal, without leading zeros.
pub open spec fn digits_text(n: nat) -> Seq<char>
    decreases n,
{
    if n < 10 {
        seq![digit_char(n as int)]
    } else {
        digits_text(n / 10).push(digit_char((n % 10) as int))
    }
}

/// An integer in decimal, with `-` before a negative one.
pub open spec fn decimal_text(value: int) -> Seq<char> {
    if value < 0 {
        seq!['-'] + digits_text((-value) as nat)
    } else {
        digits_text(value as nat)
    }
}

/// The texts in order, with `separator` between each two.
pub open spec fn join(parts: Seq<Seq<char>>, separator: Seq<char>) -> Seq<char>
    decreases parts.len(),
{
    if parts.len() == 0 {
        Seq::empty()
    } else if parts.len() == 1 {
        parts[0]
    } else {
        join(parts.drop_last(), separator) + separator + parts.last()
    }
}

/// The texts in square brackets, with a comma and a space between each two.
pub open spec fn bracketed(parts: Seq<Seq<char>>) -> Seq<char> {
    "["@ + join(parts, ", "@) + "]"@
}

/// How a value is shown.
pub open spec fn display_text(object: ObjectView) -> Seq<char>
    decreases object,
{
    match object {
        ObjectView::Null => "NULL"@,
        ObjectView::Integer(value) => decimal_text(value as int),
        ObjectView::Bool(value) => if value {
            "true"@
        } else {
            "false"@
        },
        ObjectView::Str(value) => value,
        ObjectView::Array(items) => bracketed(display_texts(items)),
        ObjectView::HashMap(_) => "HashMap"@,
        ObjectView::Function(parameters, _, _) => "]"@ + bracketed(parameters),
        ObjectView::BuiltInFunction(name) => "builtin("@ + name + ")"@,
    }
}

/// How each of the values is shown.
pub open spec fn display_texts(objects: Seq<ObjectView>) -> Seq<Seq<char>>
    decreases objects,
{
    Seq::new(
        objects.len(),
        |i: int|
            if 0 <= i < objects.len() {
                display_text(objects[i])
            } else {
                Seq::empty()
            },
    )
}

fn digit_of(digit: u64) -> (c: char)
    requires
        digit < 10,
    ensures
        c == digit_char(digit as int),
{
    if digit == 0 {
        '0'
    } else if digit == 1 {
        '1'
    } else if digit == 2 {
        '2'
    } else if digit == 3 {
        '3'
    } else if digit == 4 {
        '4'
    } else if digit == 5 {
        '5'
    } else if digit == 6 {
        '6'
    } else if digit == 7 {
        '7'
    } else if digit == 8 {
        '8'
    } else {
        '9'
    }
}

fn push_digits(text: &mut String, n: u64)
    ensures
        final(text)@ == old(text)@ + digits_text(n as nat),
    decreases n,
{
    if n >= 10 {
        push_digits(text, n / 10);
    }
    text.push(digit_of(n % 10));
    proof {
        if n >= 10 {
            assert(final(text)@ =~= old(text)@ + digits_text(n as nat));
        } else {
            assert(final(text)@ =~= old(text)@ + digits_text(n as nat));
        }
    }
}

/// An integer in decimal.
pub fn display_integer(value: i64) -> (text: String)
    ensures
        text@ == decimal_text(value as int),
{
    let mut text = String::new();
    if value < 0 {
        text.push('-');
        let magnitude: u64 = (-(value as i128)) as u64;
        push_digits(&mut text, magnitude);
        assert(text@ =~= decimal_text(value as int));
    } else {
        push_digits(&mut text, value as u64);
        assert(text@ =~= decimal_text(value as int));
    }
    text
}

proof fn lemma_join_step(parts: Seq<Seq<char>>, separator: Seq<char>, i: int)
    requires
        0 <= i < parts.len(),
    ensures
        join(parts.take(i + 1), separator) == if i == 0 {
            parts[0]
        } else {
            join(parts.take(i), separator) + separator + parts[i]
        },
{
    assert(parts.take(i + 1).drop_last() =~= parts.take(i));
}

/// The texts joined, with `separator` between each two.
pub fn join_texts(parts: &Vec<String>, separator: &str) -> (text: String)
    ensures
        text@ == join(parts.deep_view(), separator@),
{
    let mut text = String::new();
    let mut i: usize = 0;
    assert(parts.deep_view().take(0) =~= Seq::<Seq<char>>::empty());
    while i < parts.len()
        invariant
            i <= parts.len(),
            text@ == join(parts.deep_view().take(i as int), separator@),
        decreases parts.len() - i,
    {
        proof {
            lemma_join_step(parts.deep_view(), separator@, i as int);
        }
        if i > 0 {
            text.append(separator);
        }
        text.append(parts[i].as_str());
        proof {
            if i == 0 {
                assert(text@ =~= parts.deep_view()[0]);
            }
        }
        i += 1;
    }
    assert(parts.deep_view().take(parts.len() as int) =~= parts.deep_view());
    text
}

/// The texts in square brackets, with a comma and a space between each two.
pub fn display_array(parts: &Vec<String>) -> (text: String)
    ensures
        text@ == bracketed(parts.deep_view()),
{
    let mut text = String::from_str("[");
    let inner = join_texts(parts, ", ");
    text.append(inner.as_str());
    text.append("]");
    text
}

/// How each of the values is shown.
pub fn display_all(objects: &Vec<Object>) -> (texts: Vec<String>)
    ensures
        texts.deep_view() == display_texts(objects.deep_view()),
    decreases objects,
{
    let mut texts: Vec<String> = Vec::new();
    let mut i: usize = 0;
    while i < objects.len()
        invariant
            i <= objects.len(),
            texts@.len() == i,
            forall|j: int| 0 <= j < i ==> texts@[j]@ == display_text(objects@[j]@),
        decreases objects.len() - i,
    {
        texts.push(objects[i].display());
        i += 1;
    }
    assert(texts.deep_view() =~= display_texts(objects.deep_view()));
    texts
}

impl Object {
    /// How this value is shown.
    pub fn display(&self) -> (text: String)
        ensures
            text@ == display_text(self@),
        decreases self,
    {
        proof {
            lemma_model_unfolds(*self);
        }
        match self {
            Object::Null => String::from_str("NULL"),
            Object::Integer(value) => display_integer(*value),
            Object::Bool(value) => if *value {
                String::from_str("true")
            } else {
                String::from_str("false")
            },
            Object::Str(value) => value.clone(),
            Object::HashMap(_) => String::from_str("HashMap"),
            Object::Array(items) => {
                let texts = display_all(items);
                display_array(&texts)
            },
            Object::Function(parameters, _, _) => {
                let mut text = String::from_str("]");
                let list = display_array(parameters);
                text.append(list.as_str());
                text
            },
            Object::BuiltInFunction(name) => {
                let mut text = String::from_str("builtin(");
                text.append(name.as_str());
                text.append(")");
                text
            },
        }
    }
}

impl Clone for Object {
    fn clone(&self) -> (copy: Self)
        ensures
            copy@ == self@,
    {
        self.duplicate()
    }
}

impl PartialEq for Object {
    fn eq(&self, other: &Self) -> (same: bool) {
        self.equals(other)
    }
}

impl PartialEqSpecImpl for Object {
    open spec fn obeys_eq_spec() -> bool {
        true
    }

    open spec fn eq_spec(&self, other: &Self) -> bool {
        objects_equal(self@, other@)
    }
}

impl Eq for Object {

}

} // verus!

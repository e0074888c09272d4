//! The tree that a parsed document becomes, and its mathematical model.

use crate::grammar::is_alnum;
use vstd::prelude::*;

verus! {

/// The mathematical value of a node: what contracts speak of.
pub enum JsonModel {
    Null,
    Boolean(bool),
    /// The IEEE-754 binary64 bit pattern of the number.
    Number(u64),
    String(Seq<char>),
    Array(Seq<JsonModel>),
    Object(Map<Seq<char>, JsonModel>),
}

/// One parsed node.
#[derive(Debug)]
pub enum JsonValue {
    Null,
    Boolean(bool),
    /// A number, held as the IEEE-754 binary64 bit pattern of its value.
    Number(u64),
    String(String),
    Array(Vec<JsonValue>),
    /// The members of an object, each key once, in order of first appearance.
    Object(Vec<(String, JsonValue)>),
}

/// The mapping that a list of members stands for: a later member replaces
/// an earlier one with the same key.
pub open spec fn members_map(members: Seq<(Seq<char>, JsonModel)>) -> Map<Seq<char>, JsonModel>
    decreases members.len(),
{
    if members.len() == 0 {
        Map::empty()
    } else {
        members_map(members.drop_last()).insert(members.last().0, members.last().1)
    }
}

impl JsonValue {
    /// The mathematical value of the tree.
    pub open spec fn model(&self) -> JsonModel
        decreases self,
    {
        match self {
            JsonValue::Null => JsonModel::Null,
            JsonValue::Boolean(b) => JsonModel::Boolean(*b),
            JsonValue::Number(bits) => JsonModel::Number(*bits),
            JsonValue::String(text) => JsonModel::String(text@),
            JsonValue::Array(items) => JsonModel::Array(
                Seq::new(
                    items@.len(),
                    |k: int|
                        if 0 <= k < items@.len() {
                            items@[k].model()
                        } else {
                            JsonModel::Null
                        },
                ),
            ),
            JsonValue::Object(members) => JsonModel::Object(
                members_map(
                    Seq::new(
                        members@.len(),
                        |k: int|
                            if 0 <= k < members@.len() {
                                (members@[k].0@, members@[k].1.model())
                            } else {
                                (Seq::empty(), JsonModel::Null)
                            },
                    ),
                ),
            ),
        }
    }
}

impl View for JsonValue {
    type V = JsonModel;

    open spec fn view(&self) -> JsonModel {
        self.model()
    }
}

/// The models of a list of values, in order.
pub open spec fn models_of(items: Seq<JsonValue>) -> Seq<JsonModel> {
    Seq::new(items.len(), |k: int| items[k]@)
}

/// The keys and value models of a list of members, in order.
pub open spec fn pairs_of(members: Seq<(String, JsonValue)>) -> Seq<(Seq<char>, JsonModel)> {
    Seq::new(members.len(), |k: int| (members[k].0@, members[k].1@))
}

/// One or more characters, each an ASCII letter or digit.
pub open spec fn alnum_text(text: Seq<char>) -> bool {
    text.len() > 0 && forall|j: int| 0 <= j < text.len() ==> is_alnum(#[trigger] text[j])
}

/// No two members have the same key.
pub open spec fn distinct_keys(members: Seq<(String, JsonValue)>) -> bool {
    forall|a: int, b: int|
        0 <= a < b < members.len() ==> (#[trigger] members[a]).0@ != (#[trigger] members[b]).0@
}

/// The members of a well-formed object: distinct keys of letters and
/// digits, well-formed values.
pub open spec fn members_wf(members: Seq<(String, JsonValue)>) -> bool {
    &&& distinct_keys(members)
    &&& forall|k: int|
        0 <= k < members.len() ==> alnum_text((#[trigger] members[k]).0@) && members[k].1.wf()
}

impl JsonValue {
    /// Every string and key in the tree is made of ASCII letters and
    /// digits, and no object holds a key twice.
    pub open spec fn wf(&self) -> bool
        decreases self,
    {
        match self {
            JsonValue::String(text) => alnum_text(text@),
            JsonValue::Array(items) => forall|k: int|
                0 <= k < items@.len() ==> (#[trigger] items@[k]).wf(),
            JsonValue::Object(members) => {
                &&& distinct_keys(members@)
                &&& forall|k: int|
                    0 <= k < members@.len() ==> alnum_text((#[trigger] members@[k]).0@)
                        && members@[k].1.wf()
            },
            _ => true,
        }
    }
}

/// An array's model is the list of its items' models.
pub proof fn lemma_array_view(items: Vec<JsonValue>)
    ensures
        JsonValue::Array(items)@ == JsonModel::Array(models_of(items@)),
{
    assert(JsonValue::Array(items).model()->Array_0 =~= models_of(items@));
}

/// An object's model is the mapping that its members stand for.
pub proof fn lemma_object_view(members: Vec<(String, JsonValue)>)
    ensures
        JsonValue::Object(members)@ == JsonModel::Object(members_map(pairs_of(members@))),
{
    let pairs = choose|pairs: Seq<(Seq<char>, JsonModel)>|
        JsonValue::Object(members).model() == JsonModel::Object(#[trigger] members_map(pairs))
            && pairs.len() == members@.len() && forall|k: int|
            0 <= k < pairs.len() ==> pairs[k] == (members@[k].0@, members@[k].1.model());
    assert(pairs =~= pairs_of(members@));
}

/// Replacing the value of a member whose key occurs once writes that key
/// anew in the mapping.
pub proof fn lemma_members_map_update(pairs: Seq<(Seq<char>, JsonModel)>, j: int, v: JsonModel)
    requires
        0 <= j < pairs.len(),
        forall|a: int, b: int| 0 <= a < b < pairs.len() ==> pairs[a].0 != pairs[b].0,
    ensures
        members_map(pairs.update(j, (pairs[j].0, v))) == members_map(pairs).insert(pairs[j].0, v),
    decreases pairs.len(),
{
    let updated = pairs.update(j, (pairs[j].0, v));
    let front = pairs.drop_last();
    if j == pairs.len() - 1 {
        assert(updated.drop_last() =~= front);
        assert(members_map(updated) =~= members_map(pairs).insert(pairs[j].0, v));
    } else {
        assert(updated.drop_last() =~= front.update(j, (front[j].0, v)));
        lemma_members_map_update(front, j, v);
        assert(pairs.last().0 != pairs[j].0);
        assert(members_map(updated) =~= members_map(pairs).insert(pairs[j].0, v));
    }
}

/// The mapping holds, under a key, the value of the last member with that
/// key.
pub proof fn lemma_members_map_last(pairs: Seq<(Seq<char>, JsonModel)>, key: Seq<char>, j: int)
    requires
        0 <= j < pairs.len(),
        pairs[j].0 == key,
        forall|k: int| j < k < pairs.len() ==> (#[trigger] pairs[k]).0 != key,
    ensures
        members_map(pairs).contains_key(key),
        members_map(pairs)[key] == pairs[j].1,
    decreases pairs.len(),
{
    if j < pairs.len() - 1 {
        let front = pairs.drop_last();
        assert(pairs.last() == pairs[pairs.len() - 1]);
        lemma_members_map_last(front, key, j);
    }
}

/// The mapping holds no key but those of the members.
pub proof fn lemma_members_map_absent(pairs: Seq<(Seq<char>, JsonModel)>, key: Seq<char>)
    requires
        forall|k: int| 0 <= k < pairs.len() ==> (#[trigger] pairs[k]).0 != key,
    ensures
        !members_map(pairs).contains_key(key),
    decreases pairs.len(),
{
    if pairs.len() > 0 {
        assert(pairs.last() == pairs[pairs.len() - 1]);
        lemma_members_map_absent(pairs.drop_last(), key);
    }
}

impl JsonValue {
    /// The value that an object holds under `key`: `None` where it holds
    /// none, and on a node that is no object.
    pub fn get(&self, key: &String) -> (r: Option<&JsonValue>)
        ensures
            match self@ {
                JsonModel::Object(mapping) => match r {
                    Some(v) => mapping.contains_key(key@) && v@ == mapping[key@],
                    None => !mapping.contains_key(key@),
                },
                _ => r is None,
            },
    {
        match self {
            JsonValue::Object(members) => {
                proof {
                    lemma_object_view(*members);
                }
                let ghost pairs = pairs_of(members@);
                let n = members.len();
                let mut j: usize = n;
                while j > 0
                    invariant
                        j <= n,
                        n == members@.len(),
                        pairs == pairs_of(members@),
                        self@ == JsonModel::Object(members_map(pairs)),
                        forall|k: int| j <= k < n ==> (#[trigger] pairs[k]).0 != key@,
                    decreases j,
                {
                    j -= 1;
                    if members[j].0 == *key {
                        proof {
                            lemma_members_map_last(pairs, key@, j as int);
                        }
                        return Some(&members[j].1);
                    }
                }
                proof {
                    lemma_members_map_absent(pairs, key@);
                }
                None
            },
            _ => None,
        }
    }
}

/// Writes `key` with `value` into a list of members: in place of the member
/// with that key if there is one, else at the end.
pub fn insert_member(members: &mut Vec<(String, JsonValue)>, key: String, value: JsonValue)
    requires
        members_wf(old(members)@),
        alnum_text(key@),
        value.wf(),
    ensures
        members_wf(final(members)@),
        members_map(pairs_of(final(members)@)) == members_map(pairs_of(old(members)@)).insert(
            key@,
            value@,
        ),
        final(members)@ == old(members)@.push((key, value)) || exists|j: int|
            0 <= j < old(members)@.len() && (#[trigger] old(members)@[j]).0@ == key@
                && final(members)@ == old(members)@.update(j, (key, value)),
{
    let ghost before = members@;
    let ghost pairs = pairs_of(members@);
    let n = members.len();
    let mut j: usize = 0;
    while j < n
        invariant
            members@ == before,
            before == old(members)@,
            members_wf(before),
            alnum_text(key@),
            value.wf(),
            pairs == pairs_of(before),
            n == before.len(),
            j <= n,
            forall|k: int| 0 <= k < j ==> (#[trigger] before[k]).0@ != key@,
        decreases n - j,
    {
        if members[j].0 == key {
            members.set(j, (key, value));
            proof {
                assert(pairs_of(members@) =~= pairs.update(j as int, (pairs[j as int].0, value@)));
                lemma_members_map_update(pairs, j as int, value@);
                assert(before[j as int].0@ == key@);
            }
            return;
        }
        j += 1;
    }
    members.push((key, value));
    proof {
        assert(pairs_of(members@).drop_last() =~= pairs);
    }
}

} // verus!

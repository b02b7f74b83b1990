//! JSON values: reading what a gateway or an agent sent, writing what goes out.

use crate::text;
use vstd::prelude::*;

verus! {

/// A JSON value.
///
/// A number is kept as the unsigned integer that it denotes; of a negative or fractional number
/// nothing is read, so it is kept as `Number(None)`. Where an object has a key twice, the later
/// entry counts.
#[derive(Debug)]
pub enum Json {
    Null,
    Bool(bool),
    Number(Option<u64>),
    Str(String),
    Array(Vec<Json>),
    Object(Vec<(String, Json)>),
}

/// What a JSON value holds.
pub enum Tree {
    Null,
    Bool(bool),
    Number(Option<u64>),
    Str(Seq<char>),
    Array(Seq<Tree>),
    Object(Map<Seq<char>, Tree>),
}

/// What a JSON value holds.
pub open spec fn tree(j: Json) -> Tree
    decreases j,
{
    match j {
        Json::Null => Tree::Null,
        Json::Bool(b) => Tree::Bool(b),
        Json::Number(n) => Tree::Number(n),
        Json::Str(s) => Tree::Str(s@),
        Json::Array(items) => Tree::Array(trees(items@)),
        Json::Object(entries) => Tree::Object(members(entries@)),
    }
}

/// What the items of a list hold.
pub open spec fn trees(items: Seq<Json>) -> Seq<Tree>
    decreases items,
{
    if items.len() == 0 {
        Seq::empty()
    } else {
        trees(items.drop_last()).push(tree(items.last()))
    }
}

/// The members of an object with the given entries.
pub open spec fn members(entries: Seq<(String, Json)>) -> Map<Seq<char>, Tree>
    decreases entries,
{
    if entries.len() == 0 {
        Map::empty()
    } else {
        members(entries.drop_last()).insert(entries.last().0@, tree(entries.last().1))
    }
}

impl View for Json {
    type V = Tree;

    open spec fn view(&self) -> Tree {
        tree(*self)
    }
}


/// Every number in the tree is an unsigned integer.
pub open spec fn exact(t: Tree) -> bool
    decreases t,
{
    match t {
        Tree::Number(n) => n is Some,
        Tree::Array(items) => forall|i: int| 0 <= i < items.len() ==> exact(#[trigger] items[i]),
        Tree::Object(m) => forall|k: Seq<char>| m.dom().contains(k) ==> exact(#[trigger] m[k]),
        _ => true,
    }
}

/// Every number in the value is an unsigned integer, so that it can be written out.
pub open spec fn writable(j: Json) -> bool
    decreases j,
{
    match j {
        Json::Number(n) => n is Some,
        Json::Array(items) => forall|i: int|
            0 <= i < items@.len() ==> writable(#[trigger] items@[i]),
        Json::Object(entries) => forall|i: int|
            0 <= i < entries@.len() ==> writable((#[trigger] entries@[i]).1),
        _ => true,
    }
}

impl Tree {
    /// The member of an object with the given key.
    pub open spec fn get(self, key: Seq<char>) -> Option<Tree> {
        match self {
            Tree::Object(m) => if m.dom().contains(key) {
                Some(m[key])
            } else {
                None
            },
            _ => None,
        }
    }

    /// The member with the given key, `Null` where there is none.
    pub open spec fn at(self, key: Seq<char>) -> Tree {
        match self.get(key) {
            Some(t) => t,
            None => Tree::Null,
        }
    }

    /// The text, if this is a string.
    pub open spec fn as_str(self) -> Option<Seq<char>> {
        match self {
            Tree::Str(s) => Some(s),
            _ => None,
        }
    }

    /// The text of the member, if it is a string.
    pub open spec fn str_at(self, key: Seq<char>) -> Option<Seq<char>> {
        self.at(key).as_str()
    }

    /// The text of the member, `or` if it is no string.
    pub open spec fn str_or(self, key: Seq<char>, or: Seq<char>) -> Seq<char> {
        match self.str_at(key) {
            Some(s) => s,
            None => or,
        }
    }

    /// The number of the member, if it is an unsigned integer.
    pub open spec fn u64_at(self, key: Seq<char>) -> Option<u64> {
        match self.at(key) {
            Tree::Number(n) => n,
            _ => None,
        }
    }

    /// The truth value of the member, if it is one.
    pub open spec fn bool_at(self, key: Seq<char>) -> Option<bool> {
        match self.at(key) {
            Tree::Bool(b) => Some(b),
            _ => None,
        }
    }

    /// The items of the member, if it is an array.
    pub open spec fn array_at(self, key: Seq<char>) -> Option<Seq<Tree>> {
        match self.at(key) {
            Tree::Array(items) => Some(items),
            _ => None,
        }
    }

    /// The object with one more member.
    pub open spec fn with(self, key: Seq<char>, value: Tree) -> Tree {
        match self {
            Tree::Object(m) => Tree::Object(m.insert(key, value)),
            _ => self,
        }
    }
}

/// The object without members.
pub open spec fn obj() -> Tree {
    Tree::Object(Map::empty())
}

/// The number `n`.
pub open spec fn num(n: int) -> Tree {
    Tree::Number(Some(n as u64))
}

/// The items of a list, one by one.
pub proof fn lemma_trees(items: Seq<Json>)
    ensures
        trees(items).len() == items.len(),
        forall|i: int| 0 <= i < items.len() ==> (#[trigger] trees(items)[i]) == items[i]@,
    decreases items.len(),
{
    if items.len() > 0 {
        lemma_trees(items.drop_last());
        assert forall|i: int| 0 <= i < items.len() implies (#[trigger] trees(items)[i])
            == items[i]@ by {
            if i < items.len() - 1 {
                assert(trees(items.drop_last())[i] == items.drop_last()[i]@);
            }
        }
    }
}

/// One more item.
pub proof fn lemma_trees_push(items: Seq<Json>, item: Json)
    ensures
        trees(items.push(item)) == trees(items).push(item@),
{
    assert(items.push(item).drop_last() =~= items);
}

/// One more entry.
pub proof fn lemma_members_push(entries: Seq<(String, Json)>, entry: (String, Json))
    ensures
        members(entries.push(entry)) == members(entries).insert(entry.0@, entry.1@),
{
    assert(entries.push(entry).drop_last() =~= entries);
}

proof fn lemma_members_last(entries: Seq<(String, Json)>, n: int, key: Seq<char>)
    requires
        0 <= n <= entries.len(),
        forall|k: int| n <= k < entries.len() ==> (#[trigger] entries[k]).0@ != key,
    ensures
        members(entries).dom().contains(key) == members(entries.take(n)).dom().contains(key),
        members(entries).dom().contains(key) ==> members(entries)[key] == members(
            entries.take(n),
        )[key],
    decreases entries.len() - n,
{
    if n < entries.len() {
        let shorter = entries.drop_last();
        assert forall|k: int| n <= k < shorter.len() implies (#[trigger] shorter[k]).0@ != key by {
            assert(shorter[k] == entries[k]);
        }
        lemma_members_last(shorter, n, key);
        assert(shorter.take(n) =~= entries.take(n));
        assert(entries[entries.len() - 1].0@ != key);
    } else {
        assert(entries.take(n) =~= entries);
    }
}

impl Json {
    /// The member of an object with the given key.
    pub fn get(&self, key: &str) -> (r: Option<&Json>)
        ensures
            match r {
                Some(j) => self@.get(key@) == Some(j@),
                None => self@.get(key@) is None,
            },
    {
        match self {
            Json::Object(entries) => {
                let mut n: usize = entries.len();
                while n > 0
                    invariant
                        n <= entries@.len(),
                        self@ == Tree::Object(members(entries@)),
                        forall|k: int|
                            n <= k < entries@.len() ==> (#[trigger] entries@[k]).0@ != key@,
                    decreases n,
                {
                    if text::same_text(entries[n - 1].0.as_str(), key) {
                        proof {
                            lemma_members_last(entries@, n as int, key@);
                            assert(entries@.take(n as int).last() == entries@[n - 1]);
                        }
                        return Some(&entries[n - 1].1);
                    }
                    n -= 1;
                }
                proof {
                    lemma_members_last(entries@, 0, key@);
                    assert(entries@.take(0) =~= Seq::<(String, Json)>::empty());
                }
                None
            },
            _ => None,
        }
    }

    /// The text, if this is a string.
    pub fn as_str(&self) -> (r: Option<&str>)
        ensures
            match r {
                Some(s) => self@.as_str() == Some(s@),
                None => self@.as_str() is None,
            },
    {
        match self {
            Json::Str(s) => Some(s.as_str()),
            _ => None,
        }
    }

    /// The text of the member, if it is a string.
    pub fn str_at(&self, key: &str) -> (r: Option<&str>)
        ensures
            match r {
                Some(s) => self@.str_at(key@) == Some(s@),
                None => self@.str_at(key@) is None,
            },
    {
        match self.get(key) {
            Some(j) => j.as_str(),
            None => None,
        }
    }

    /// The text of the member, `or` if it is no string.
    pub fn str_or(&self, key: &str, or: &str) -> (r: String)
        ensures
            r@ == self@.str_or(key@, or@),
    {
        match self.str_at(key) {
            Some(s) => s.to_string(),
            None => or.to_string(),
        }
    }

    /// The text of the member, if it is a string.
    pub fn string_at(&self, key: &str) -> (r: Option<String>)
        ensures
            text::opt_text(r) == self@.str_at(key@),
    {
        match self.str_at(key) {
            Some(s) => Some(s.to_string()),
            None => None,
        }
    }

    /// The number of the member, if it is an unsigned integer.
    pub fn u64_at(&self, key: &str) -> (r: Option<u64>)
        ensures
            r == self@.u64_at(key@),
    {
        match self.get(key) {
            Some(Json::Number(n)) => *n,
            _ => None,
        }
    }

    /// The truth value of the member, if it is one.
    pub fn bool_at(&self, key: &str) -> (r: Option<bool>)
        ensures
            r == self@.bool_at(key@),
    {
        match self.get(key) {
            Some(Json::Bool(b)) => Some(*b),
            _ => None,
        }
    }

    /// The items of the member, if it is an array.
    pub fn array_at(&self, key: &str) -> (r: Option<&Vec<Json>>)
        ensures
            match r {
                Some(items) => self@.array_at(key@) == Some(trees(items@)),
                None => self@.array_at(key@) is None,
            },
    {
        match self.get(key) {
            Some(Json::Array(items)) => Some(items),
            _ => None,
        }
    }

    /// The object without members.
    pub fn object() -> (r: Json)
        ensures
            r@ == obj(),
            writable(r),
    {
        let entries: Vec<(String, Json)> = Vec::new();
        assert(members(entries@) =~= Map::empty());
        Json::Object(entries)
    }

    /// The object with one more member.
    pub fn with(self, key: &str, value: Json) -> (r: Json)
        ensures
            r@ == self@.with(key@, value@),
            writable(self) && writable(value) ==> writable(r),
    {
        match self {
            Json::Object(entries) => {
                let mut all: Vec<(String, Json)> = entries;
                let entry = (key.to_string(), value);
                proof {
                    assert(all@.push(entry).drop_last() =~= all@);
                }
                all.push(entry);
                Json::Object(all)
            },
            _ => self,
        }
    }

    /// The list with one item.
    pub fn single(item: Json) -> (r: Json)
        ensures
            r@ == Tree::Array(seq![item@]),
            writable(item) ==> writable(r),
    {
        let mut items: Vec<Json> = Vec::new();
        proof {
            lemma_trees_push(items@, item);
            assert(trees(items@).push(item@) =~= seq![item@]);
        }
        items.push(item);
        Json::Array(items)
    }

    /// A string.
    pub fn string(s: &str) -> (r: Json)
        ensures
            r@ == Tree::Str(s@),
            writable(r),
    {
        Json::Str(s.to_string())
    }

    /// A number.
    pub fn number(n: u64) -> (r: Json)
        ensures
            r@ == num(n as int),
            writable(r),
    {
        Json::Number(Some(n))
    }
}

/// Appends an item to a list.
pub fn push_item(items: &mut Vec<Json>, item: Json)
    ensures
        trees(final(items)@) == trees(old(items)@).push(item@),
        final(items)@ == old(items)@.push(item),
{
    proof {
        lemma_trees_push(items@, item);
    }
    items.push(item);
}

// ---------------------------------------------------------------- JSON text

/// The JSON values of `serde_json`.
#[verifier::external_type_specification]
#[verifier::external_body]
pub struct ExValue(serde_json::Value);

/// What a `serde_json::Value` holds.
pub uninterp spec fn value_tree(v: serde_json::Value) -> Tree;

/// The value that `serde_json::from_str` reads from a text; `None` where it reports an error.
pub uninterp spec fn parsed(text: Seq<char>) -> Option<Tree>;

/// The text that `serde_json::to_string` writes for a value.
pub uninterp spec fn written(t: Tree) -> Seq<char>;

/// The outermost layer of a `serde_json::Value`.
pub enum Layer {
    Null,
    Bool(bool),
    Number(Option<u64>),
    Str(String),
    Array(Vec<serde_json::Value>),
    Object(Vec<(String, serde_json::Value)>),
}

/// What the items of a list hold.
pub open spec fn value_trees(items: Seq<serde_json::Value>) -> Seq<Tree> {
    items.map_values(|v: serde_json::Value| value_tree(v))
}

/// The members of an object with the given entries.
pub open spec fn value_members(entries: Seq<(String, serde_json::Value)>) -> Map<Seq<char>, Tree>
    decreases entries.len(),
{
    if entries.len() == 0 {
        Map::empty()
    } else {
        value_members(entries.drop_last()).insert(
            entries.last().0@,
            value_tree(entries.last().1),
        )
    }
}

/// No two entries have the same key.
pub open spec fn keys_differ(entries: Seq<(String, serde_json::Value)>) -> bool {
    forall|i: int, j: int|
        0 <= i < j < entries.len() ==> (#[trigger] entries[i]).0@ != (#[trigger] entries[j]).0@
}

/// What a layer holds.
pub open spec fn layer_tree(l: Layer) -> Tree {
    match l {
        Layer::Null => Tree::Null,
        Layer::Bool(b) => Tree::Bool(b),
        Layer::Number(n) => Tree::Number(n),
        Layer::Str(s) => Tree::Str(s@),
        Layer::Array(items) => Tree::Array(value_trees(items@)),
        Layer::Object(entries) => Tree::Object(value_members(entries@)),
    }
}

/// `serde_json::from_str::<serde_json::Value>`: reads a JSON text. Only that the outcome is a
/// function of the text is claimed.
#[verifier::external_body]
fn value_from_str(text: &str) -> (r: Option<serde_json::Value>)
    ensures
        match r {
            Some(v) => parsed(text@) == Some(value_tree(v)),
            None => parsed(text@) is None,
        },
{
    serde_json::from_str::<serde_json::Value>(text).ok()
}

/// The variants of `serde_json::Value`, its `Number::as_u64` and the entries of its `Map`: takes
/// the outermost layer of a value off. A map hands each of its keys out once.
#[verifier::external_body]
fn unwrap_value(v: serde_json::Value) -> (r: Layer)
    ensures
        layer_tree(r) == value_tree(v),
        r matches Layer::Object(entries) ==> keys_differ(entries@),
{
    match v {
        serde_json::Value::Null => Layer::Null,
        serde_json::Value::Bool(b) => Layer::Bool(b),
        serde_json::Value::Number(n) => Layer::Number(n.as_u64()),
        serde_json::Value::String(s) => Layer::Str(s),
        serde_json::Value::Array(items) => Layer::Array(items),
        serde_json::Value::Object(map) => Layer::Object(map.into_iter().collect()),
    }
}

/// The variants of `serde_json::Value` and the conversions into its `Number` and `Map`: puts a
/// layer around values. A map keeps the later of two entries with one key.
#[verifier::external_body]
fn wrap_value(l: Layer) -> (r: serde_json::Value)
    requires
        !(l matches Layer::Number(n) && n is None),
    ensures
        value_tree(r) == layer_tree(l),
{
    match l {
        Layer::Null => serde_json::Value::Null,
        Layer::Bool(b) => serde_json::Value::Bool(b),
        Layer::Number(n) => serde_json::Value::from(n),
        Layer::Str(s) => serde_json::Value::String(s),
        Layer::Array(items) => serde_json::Value::Array(items),
        Layer::Object(entries) => serde_json::Value::Object(entries.into_iter().collect()),
    }
}

/// `serde_json::to_string` on a value: writes its JSON text. It cannot fail on a
/// `serde_json::Value`. Where every number is an unsigned integer, the text is a function of what
/// the value holds.
#[verifier::external_body]
fn value_to_string(v: &serde_json::Value) -> (r: String)
    ensures
        exact(value_tree(*v)) ==> r@ == written(value_tree(*v)),
{
    serde_json::to_string(v).unwrap()
}

proof fn lemma_value_members(entries: Seq<(String, serde_json::Value)>)
    requires
        keys_differ(entries),
    ensures
        value_members(entries).dom().finite(),
        forall|i: int|
            0 <= i < entries.len() ==> value_members(entries).dom().contains(
                (#[trigger] entries[i]).0@,
            ) && value_members(entries)[entries[i].0@] == value_tree(entries[i].1),
    decreases entries.len(),
{
    if entries.len() > 0 {
        let shorter = entries.drop_last();
        assert forall|i: int, j: int| 0 <= i < j < shorter.len() implies (
        #[trigger] shorter[i]).0@ != (#[trigger] shorter[j]).0@ by {
            assert(shorter[i] == entries[i] && shorter[j] == entries[j]);
        }
        lemma_value_members(shorter);
        assert forall|i: int| 0 <= i < entries.len() implies value_members(entries).dom().contains(
            (#[trigger] entries[i]).0@,
        ) && value_members(entries)[entries[i].0@] == value_tree(entries[i].1) by {
            if i < shorter.len() {
                assert(shorter[i] == entries[i]);
                assert(entries[i].0@ != entries[entries.len() - 1].0@);
            }
        }
    }
}

/// The library's form of a `serde_json` value.
fn from_value(v: serde_json::Value) -> (r: Json)
    ensures
        r@ == value_tree(v),
    decreases value_tree(v),
{
    let ghost whole = value_tree(v);
    match unwrap_value(v) {
        Layer::Null => Json::Null,
        Layer::Bool(b) => Json::Bool(b),
        Layer::Number(n) => Json::Number(n),
        Layer::Str(s) => Json::Str(s),
        Layer::Array(items) => {
            let ghost all = items@;
            let mut rest: Vec<serde_json::Value> = items;
            let mut back: Vec<serde_json::Value> = Vec::new();
            let ghost want = value_trees(all);
            while rest.len() > 0
                invariant
                    rest@.len() + back@.len() == all.len(),
                    rest@ =~= all.take(rest@.len() as int),
                    forall|k: int|
                        0 <= k < back@.len() ==> (#[trigger] back@[k]) == all[all.len() - 1 - k],
                decreases rest@.len(),
            {
                let ghost n = rest@.len();
                match rest.pop() {
                    Some(x) => {
                        assert(x == all[n - 1]);
                        back.push(x);
                    },
                    None => {},
                }
            }
            let mut out: Vec<Json> = Vec::new();
            while back.len() > 0
                invariant
                    whole == value_tree(v),
                    whole == Tree::Array(want),
                    want == value_trees(all),
                    out@.len() + back@.len() == all.len(),
                    forall|k: int|
                        0 <= k < back@.len() ==> (#[trigger] back@[k]) == all[all.len() - 1 - k],
                    trees(out@) =~= want.take(out@.len() as int),
                decreases back@.len(),
            {
                let ghost n = out@.len() as int;
                match back.pop() {
                    Some(x) => {
                        assert(x == all[n as int]);
                        assert(want[n as int] == value_tree(x));
                        assert(decreases_to!(whole => whole->Array_0));
                        assert(decreases_to!(want => want[n]));
                        assert(decreases_to!(whole => want[n]));
                        let j = from_value(x);
                        proof {
                            lemma_trees_push(out@, j);
                            assert(want.take(n + 1) =~= want.take(n as int).push(want[n as int]));
                        }
                        out.push(j);
                    },
                    None => {},
                }
            }
            assert(want.take(all.len() as int) =~= want);
            Json::Array(out)
        },
        Layer::Object(entries) => {
            let ghost all = entries@;
            let ghost want = value_members(all);
            proof {
                lemma_value_members(all);
            }
            let mut rest: Vec<(String, serde_json::Value)> = entries;
            let mut back: Vec<(String, serde_json::Value)> = Vec::new();
            while rest.len() > 0
                invariant
                    rest@.len() + back@.len() == all.len(),
                    rest@ =~= all.take(rest@.len() as int),
                    forall|k: int|
                        0 <= k < back@.len() ==> (#[trigger] back@[k]) == all[all.len() - 1 - k],
                decreases rest@.len(),
            {
                let ghost n = rest@.len();
                match rest.pop() {
                    Some(x) => {
                        assert(x == all[n - 1]);
                        back.push(x);
                    },
                    None => {},
                }
            }
            let mut out: Vec<(String, Json)> = Vec::new();
            assert(all.take(0) =~= Seq::<(String, serde_json::Value)>::empty());
            while back.len() > 0
                invariant
                    whole == value_tree(v),
                    whole == Tree::Object(want),
                    want.dom().finite(),
                    forall|i: int|
                        0 <= i < all.len() ==> want.dom().contains((#[trigger] all[i]).0@)
                            && want[all[i].0@] == value_tree(all[i].1),
                    out@.len() + back@.len() == all.len(),
                    forall|k: int|
                        0 <= k < back@.len() ==> (#[trigger] back@[k]) == all[all.len() - 1 - k],
                    members(out@) =~= value_members(all.take(out@.len() as int)),
                decreases back@.len(),
            {
                let ghost n = out@.len() as int;
                match back.pop() {
                    Some(x) => {
                        assert(x == all[n as int]);
                        assert(want[x.0@] == value_tree(x.1));
                        assert(decreases_to!(whole => whole->Object_0));
                        assert(decreases_to!(want => want[x.0@]));
                        assert(decreases_to!(whole => want[x.0@]));
                        let (key, value) = x;
                        let j = from_value(value);
                        let entry = (key, j);
                        proof {
                            assert(out@.push(entry).drop_last() =~= out@);
                            assert(all.take(n + 1).drop_last() =~= all.take(n as int));
                            assert(all.take(n + 1).last() == all[n as int]);
                        }
                        out.push(entry);
                    },
                    None => {},
                }
            }
            assert(all.take(all.len() as int) =~= all);
            Json::Object(out)
        },
    }
}

/// Reads a JSON text.
pub fn parse_json(text: &str) -> (r: Option<Json>)
    ensures
        match r {
            Some(j) => parsed(text@) == Some(j@),
            None => parsed(text@) is None,
        },
{
    match value_from_str(text) {
        Some(v) => Some(from_value(v)),
        None => None,
    }
}

proof fn lemma_writable_items(items: Seq<Json>)
    requires
        forall|i: int| 0 <= i < items.len() ==> writable(#[trigger] items[i]),
    ensures
        exact(Tree::Array(trees(items))),
    decreases items,
{
    lemma_trees(items);
    assert forall|i: int| 0 <= i < trees(items).len() implies exact(#[trigger] trees(items)[i]) by {
        lemma_writable(items[i]);
    }
}

proof fn lemma_writable_members(entries: Seq<(String, Json)>)
    requires
        forall|i: int| 0 <= i < entries.len() ==> writable((#[trigger] entries[i]).1),
    ensures
        forall|k: Seq<char>|
            members(entries).dom().contains(k) ==> exact(#[trigger] members(entries)[k]),
    decreases entries,
{
    if entries.len() > 0 {
        let shorter = entries.drop_last();
        assert forall|i: int| 0 <= i < shorter.len() implies writable((#[trigger] shorter[i]).1) by {
            assert(shorter[i] == entries[i]);
        }
        lemma_writable_members(shorter);
        assert(writable(entries[entries.len() - 1].1));
        lemma_writable(entries.last().1);
        assert forall|k: Seq<char>| members(entries).dom().contains(k) implies exact(
            #[trigger] members(entries)[k],
        ) by {
            if k != entries.last().0@ {
                assert(members(shorter).dom().contains(k));
            }
        }
    }
}

/// A value that can be written holds no number but unsigned integers.
pub proof fn lemma_writable(j: Json)
    requires
        writable(j),
    ensures
        exact(j@),
    decreases j,
{
    match j {
        Json::Array(items) => {
            lemma_writable_items(items@);
            assert(j@ == Tree::Array(trees(items@)));
        },
        Json::Object(entries) => {
            lemma_writable_members(entries@);
            assert(j@ == Tree::Object(members(entries@)));
        },
        _ => {},
    }
}

/// The `serde_json` form of a value.
fn to_value(j: &Json) -> (r: serde_json::Value)
    requires
        writable(*j),
    ensures
        value_tree(r) == j@,
    decreases j,
{
    match j {
        Json::Null => wrap_value(Layer::Null),
        Json::Bool(b) => wrap_value(Layer::Bool(*b)),
        Json::Number(n) => wrap_value(Layer::Number(*n)),
        Json::Str(s) => wrap_value(Layer::Str(s.clone())),
        Json::Array(items) => {
            let mut out: Vec<serde_json::Value> = Vec::new();
            let mut i: usize = 0;
            while i < items.len()
                invariant
                    i <= items@.len(),
                    *j == Json::Array(*items),
                    forall|k: int| 0 <= k < items@.len() ==> writable(#[trigger] items@[k]),
                    out@.len() == i,
                    forall|k: int|
                        0 <= k < i ==> value_tree(#[trigger] out@[k]) == items@[k]@,
                decreases items@.len() - i,
            {
                assert(decreases_to!(*j => j->Array_0));
                assert(decreases_to!(*items => items@));
                assert(decreases_to!(items@ => items@[i as int]));
                out.push(to_value(&items[i]));
                i += 1;
            }
            proof {
                lemma_trees(items@);
                assert(value_trees(out@) =~= trees(items@));
            }
            wrap_value(Layer::Array(out))
        },
        Json::Object(entries) => {
            let mut out: Vec<(String, serde_json::Value)> = Vec::new();
            let mut i: usize = 0;
            assert(entries@.take(0) =~= Seq::<(String, Json)>::empty());
            while i < entries.len()
                invariant
                    i <= entries@.len(),
                    *j == Json::Object(*entries),
                    forall|k: int|
                        0 <= k < entries@.len() ==> writable((#[trigger] entries@[k]).1),
                    out@.len() == i,
                    value_members(out@) =~= members(entries@.take(i as int)),
                decreases entries@.len() - i,
            {
                assert(decreases_to!(*j => j->Object_0));
                assert(decreases_to!(*entries => entries@));
                assert(decreases_to!(entries@ => entries@[i as int]));
                assert(decreases_to!(entries@[i as int] => entries@[i as int].1));
                let v = to_value(&entries[i].1);
                let entry = (entries[i].0.clone(), v);
                proof {
                    assert(out@.push(entry).drop_last() =~= out@);
                    assert(entries@.take(i + 1).drop_last() =~= entries@.take(i as int));
                    assert(entries@.take(i + 1).last() == entries@[i as int]);
                }
                out.push(entry);
                i += 1;
            }
            assert(entries@.take(entries@.len() as int) =~= entries@);
            wrap_value(Layer::Object(out))
        },
    }
}

/// Writes a value as JSON text.
pub fn write_json(j: &Json) -> (r: String)
    requires
        writable(*j),
    ensures
        r@ == written(j@),
{
    proof {
        lemma_writable(*j);
    }
    value_to_string(&to_value(j))
}

/// Whether a value can be written out.
fn can_write(j: &Json) -> (r: bool)
    ensures
        r == writable(*j),
    decreases j,
{
    match j {
        Json::Number(n) => n.is_some(),
        Json::Array(items) => {
            let mut i: usize = 0;
            while i < items.len()
                invariant
                    i <= items@.len(),
                    *j == Json::Array(*items),
                    forall|k: int| 0 <= k < i ==> writable(#[trigger] items@[k]),
                decreases items@.len() - i,
            {
                assert(decreases_to!(*j => j->Array_0));
                assert(decreases_to!(*items => items@));
                assert(decreases_to!(items@ => items@[i as int]));
                if !can_write(&items[i]) {
                    return false;
                }
                i += 1;
            }
            true
        },
        Json::Object(entries) => {
            let mut i: usize = 0;
            while i < entries.len()
                invariant
                    i <= entries@.len(),
                    *j == Json::Object(*entries),
                    forall|k: int| 0 <= k < i ==> writable((#[trigger] entries@[k]).1),
                decreases entries@.len() - i,
            {
                assert(decreases_to!(*j => j->Object_0));
                assert(decreases_to!(*entries => entries@));
                assert(decreases_to!(entries@ => entries@[i as int]));
                assert(decreases_to!(entries@[i as int] => entries@[i as int].1));
                if !can_write(&entries[i].1) {
                    return false;
                }
                i += 1;
            }
            true
        },
        _ => true,
    }
}

/// A value as JSON text; `None` if it holds a number that is no unsigned integer.
pub fn json_text(j: &Json) -> (r: Option<String>)
    ensures
        match r {
            Some(t) => writable(*j) && t@ == written(j@),
            None => !writable(*j),
        },
{
    if can_write(j) {
        Some(write_json(j))
    } else {
        None
    }
}

} // verus!

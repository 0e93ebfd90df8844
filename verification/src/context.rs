use vstd::prelude::*;
use crate::table::{Table, keys_distinct};

verus! {

/// A value stored in a [`Context`]: JSON `null`, a JSON string, or any other
/// JSON value (number, boolean, array, object) held as its compact JSON text.
#[derive(Debug, PartialEq, Eq)]
pub enum JsonValue {
    Null,
    Text(String),
    Json(String),
}

/// A [`JsonValue`] with its text taken as a character sequence.
pub enum JsonValueView {
    Null,
    Text(Seq<char>),
    Json(Seq<char>),
}

impl View for JsonValue {
    type V = JsonValueView;

    open spec fn view(&self) -> JsonValueView {
        match self {
            JsonValue::Null => JsonValueView::Null,
            JsonValue::Text(s) => JsonValueView::Text(s@),
            JsonValue::Json(s) => JsonValueView::Json(s@),
        }
    }
}

/// How a value reads as text: a string as itself, anything else as its JSON
/// text (`null` for null).
pub open spec fn display_text(v: JsonValueView) -> Seq<char> {
    match v {
        JsonValueView::Null => seq!['n', 'u', 'l', 'l'],
        JsonValueView::Text(s) => s,
        JsonValueView::Json(s) => s,
    }
}

impl Clone for JsonValue {
    fn clone(&self) -> (r: Self)
        ensures
            r == *self,
    {
        match self {
            JsonValue::Null => JsonValue::Null,
            JsonValue::Text(s) => JsonValue::Text(s.clone()),
            JsonValue::Json(s) => JsonValue::Json(s.clone()),
        }
    }
}

impl JsonValue {
    pub fn is_null(&self) -> (b: bool)
        ensures
            b == (self@ == JsonValueView::Null),
    {
        match self {
            JsonValue::Null => true,
            _ => false,
        }
    }

    /// The value as text: a string as itself, anything else as its JSON text.
    pub fn to_text(&self) -> (s: String)
        ensures
            s@ == display_text(self@),
    {
        match self {
            JsonValue::Null => {
                let s = String::from_str("null");
                proof {
                    reveal_strlit("null");
                }
                s
            },
            JsonValue::Text(s) => s.clone(),
            JsonValue::Json(s) => s.clone(),
        }
    }
}

/// Key/value data shared by the nodes of a workflow while it runs. Each node
/// stores its answer under `<node id>.output`, and the fields of an answer
/// that is a JSON object under `<node id>.<field>`.
#[derive(Debug)]
pub struct Context {
    data: Table<JsonValue>,
}

impl View for Context {
    type V = Map<Seq<char>, JsonValueView>;

    closed spec fn view(&self) -> Map<Seq<char>, JsonValueView> {
        Map::new(|k: Seq<char>| self.data@.contains_key(k), |k: Seq<char>| self.data@[k]@)
    }
}

impl Clone for Context {
    fn clone(&self) -> (c: Self)
        ensures
            c@ == self@,
            c.key_seq() == self.key_seq(),
    {
        let entries = self.data.entries();
        let ghost es = entries@;
        let mut data: Table<JsonValue> = Table::new();
        let mut i: usize = 0;
        while i < entries.len()
            invariant
                es == entries@,
                es == self.data.entry_seq(),
                keys_distinct(es),
                i <= es.len(),
                data.key_seq() == es.take(i as int).map_values(|e: (String, JsonValue)| e.0@),
                forall|k: Seq<char>| #[trigger] data@.contains_key(k) <==> (exists|j: int| 0 <= j < i && es[j].0@ == k),
                forall|j: int| 0 <= j < i ==> data@[#[trigger] es[j].0@] == es[j].1,
            decreases es.len() - i,
        {
            let k = entries[i].0.clone();
            let v = entries[i].1.clone();
            proof {
                assert forall|j: int| 0 <= j < i implies es[j].0@ != k@ by {}
            }
            data.insert(k, v);
            proof {
                assert(es.take(i + 1).map_values(|e: (String, JsonValue)| e.0@) =~= es.take(i as int).map_values(
                    |e: (String, JsonValue)| e.0@,
                ).push(es[i as int].0@));
                assert forall|k: Seq<char>| #[trigger] data@.contains_key(k) <==> (exists|j: int| 0 <= j < i + 1 && es[j].0@ == k) by {
                    if data@.contains_key(k) && k != es[i as int].0@ {
                        let j = choose|j: int| 0 <= j < i && es[j].0@ == k;
                    }
                }
            }
            i = i + 1;
        }
        let c = Context { data };
        proof {
            assert(es.take(i as int) =~= es);
            assert forall|k: Seq<char>| #[trigger] c@.contains_key(k) == self@.contains_key(k) by {
                if self.data@.contains_key(k) {
                    let j = choose|j: int| 0 <= j < es.len() && es[j].0@ == k;
                    assert(data@.contains_key(es[j].0@));
                }
            }
            assert forall|k: Seq<char>| c@.contains_key(k) implies #[trigger] c@[k] == self@[k] by {
                let j = choose|j: int| 0 <= j < es.len() && es[j].0@ == k;
                assert(data@[es[j].0@] == es[j].1);
            }
            assert(c@ =~= self@);
        }
        c
    }
}

impl Context {
    /// The keys, in the order in which they were first set.
    pub closed spec fn key_seq(&self) -> Seq<Seq<char>> {
        self.data.key_seq()
    }

    pub fn new() -> (c: Self)
        ensures
            c@ == Map::<Seq<char>, JsonValueView>::empty(),
            c.key_seq() == Seq::<Seq<char>>::empty(),
    {
        let c = Context { data: Table::new() };
        assert(c@ =~= Map::<Seq<char>, JsonValueView>::empty());
        assert(c.key_seq() =~= Seq::<Seq<char>>::empty());
        c
    }

    /// Stores `val` under `key`, replacing what was there.
    pub fn set(&mut self, key: String, val: JsonValue)
        ensures
            final(self)@ == old(self)@.insert(key@, val@),
            old(self)@.contains_key(key@) ==> final(self).key_seq() == old(self).key_seq(),
            !old(self)@.contains_key(key@) ==> final(self).key_seq() == old(self).key_seq().push(
                key@,
            ),
    {
        let ghost k = key@;
        let ghost v = val@;
        self.data.insert(key, val);
        assert(self@ =~= old(self)@.insert(k, v));
    }

    pub fn get(&self, key: &str) -> (r: Option<&JsonValue>)
        ensures
            match r {
                Some(v) => self@.contains_key(key@) && self@[key@] == v@,
                None => !self@.contains_key(key@),
            },
    {
        self.data.get(key)
    }

    /// The value under `key` as text: a string as itself, anything else as its
    /// JSON text.
    pub fn get_str(&self, key: &str) -> (r: Option<String>)
        ensures
            match r {
                Some(s) => self@.contains_key(key@) && s@ == display_text(self@[key@]),
                None => !self@.contains_key(key@),
            },
    {
        match self.data.get(key) {
            Some(v) => Some(v.to_text()),
            None => None,
        }
    }

    /// All entries, in the order in which their keys were first set.
    pub fn snapshot(&self) -> (t: &Table<JsonValue>)
        ensures
            t.key_seq() == self.key_seq(),
            forall|k: Seq<char>| #[trigger] t@.contains_key(k) == self@.contains_key(k),
            forall|k: Seq<char>| t@.contains_key(k) ==> (#[trigger] t@[k])@ == self@[k],
    {
        &self.data
    }

    /// Copies every entry of `other` into this context; on a shared key the
    /// value of `other` wins.
    pub fn merge(&mut self, other: Context)
        ensures
            final(self)@ == old(self)@.union_prefer_right(other@),
    {
        let entries = other.data.into_entries();
        let ghost es = entries@;
        let mut i: usize = 0;
        while i < entries.len()
            invariant
                es == entries@,
                keys_distinct(es),
                i <= es.len(),
                forall|k: Seq<char>| #[trigger] other@.contains_key(k) <==> (exists|j: int| 0 <= j < es.len() && es[j].0@ == k),
                forall|j: int| 0 <= j < es.len() ==> other@[#[trigger] es[j].0@] == es[j].1@,
                self@ == old(self)@.union_prefer_right(
                    other@.restrict(Set::new(|k: Seq<char>| exists|j: int| 0 <= j < i && es[j].0@ == k)),
                ),
            decreases es.len() - i,
        {
            let key = entries[i].0.clone();
            let val = entries[i].1.clone();
            let ghost before = self@;
            self.set(key, val);
            proof {
                let si = Set::new(|k: Seq<char>| exists|j: int| 0 <= j < i && es[j].0@ == k);
                let si1 = Set::new(|k: Seq<char>| exists|j: int| 0 <= j < i + 1 && es[j].0@ == k);
                assert(si1 =~= si.insert(es[i as int].0@)) by {
                    assert forall|k: Seq<char>| si1.contains(k) <==> si.insert(es[i as int].0@).contains(k) by {
                        if si1.contains(k) {
                            let j = choose|j: int| 0 <= j < i + 1 && es[j].0@ == k;
                            if j < i {
                                assert(si.contains(k));
                            }
                        }
                        if si.contains(k) {
                            let j = choose|j: int| 0 <= j < i && es[j].0@ == k;
                            assert(0 <= j < i + 1 && es[j].0@ == k);
                        }
                    }
                }
                assert(self@ =~= old(self)@.union_prefer_right(other@.restrict(si1)));
            }
            i = i + 1;
        }
        proof {
            let sa = Set::new(|k: Seq<char>| exists|j: int| 0 <= j < es.len() && es[j].0@ == k);
            assert(other@.restrict(sa) =~= other@);
        }
    }
}

} // verus!

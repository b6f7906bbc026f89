//! A map from texts, kept as a list of entries.
use vstd::prelude::*;
use crate::text::{same_text, texts};

verus! {

#[derive(Debug)]
pub struct TextMap<V> {
    keys: Vec<String>,
    values: Vec<V>,
}

impl<V> View for TextMap<V> {
    type V = Map<Seq<char>, V>;

    closed spec fn view(&self) -> Map<Seq<char>, V> {
        Map::new(
            |key: Seq<char>| texts(self.keys@).contains(key),
            |key: Seq<char>| self.values@[texts(self.keys@).index_of(key)],
        )
    }
}

impl<V> TextMap<V> {
    /// Whether each key is listed once, with its value.
    pub closed spec fn well_formed(&self) -> bool {
        &&& self.keys@.len() == self.values@.len()
        &&& texts(self.keys@).no_duplicates()
    }

    pub fn new() -> (map: Self)
        ensures
            map.well_formed(),
            map@ == Map::<Seq<char>, V>::empty(),
    {
        let map = TextMap { keys: Vec::new(), values: Vec::new() };
        proof {
            assert(texts(map.keys@) =~= Seq::<Seq<char>>::empty());
            assert(map@ =~= Map::<Seq<char>, V>::empty());
        }
        map
    }

    fn find(&self, key: &str) -> (place: Option<usize>)
        requires
            self.well_formed(),
        ensures
            place is Some <==> self@.dom().contains(key@),
            place matches Some(index) ==> index < self.values@.len() && texts(
                self.keys@,
            )[index as int] == key@ && self@[key@] == self.values@[index as int],
    {
        let mut index: usize = 0;
        while index < self.keys.len()
            invariant
                index <= self.keys@.len(),
                self.well_formed(),
                forall|earlier: int| 0 <= earlier < index ==> texts(self.keys@)[earlier] != key@,
            decreases self.keys@.len() - index,
        {
            assert(texts(self.keys@)[index as int] == self.keys@[index as int]@);
            if same_text(self.keys[index].as_str(), key) {
                proof {
                    let listed = texts(self.keys@);
                    assert(listed.contains(key@));
                    assert(listed[listed.index_of(key@)] == key@);
                }
                return Some(index);
            }
            index += 1;
        }
        None
    }

    pub fn get(&self, key: &str) -> (value: Option<&V>)
        requires
            self.well_formed(),
        ensures
            value is Some <==> self@.dom().contains(key@),
            value matches Some(found) ==> *found == self@[key@],
    {
        match self.find(key) {
            Some(index) => Some(&self.values[index]),
            None => None,
        }
    }

    pub fn set(&mut self, key: String, value: V)
        requires
            old(self).well_formed(),
        ensures
            final(self).well_formed(),
            final(self)@ == old(self)@.insert(key@, value),
    {
        let ghost held = texts(self.keys@);
        match self.find(key.as_str()) {
            Some(index) => {
                self.values.set(index, value);
                proof {
                    assert forall|other: Seq<char>| held.contains(other) && other
                        != key@ implies held.index_of(other) != index as int by {
                        assert(held[held.index_of(other)] == other);
                    }
                    assert(held.index_of(key@) == index as int) by {
                        assert(held[held.index_of(key@)] == key@);
                    }
                    assert(self@ =~= old(self)@.insert(key@, value));
                }
            },
            None => {
                let ghost text = key@;
                self.keys.push(key);
                self.values.push(value);
                proof {
                    let listed = texts(self.keys@);
                    assert(listed =~= held.push(text));
                    assert(!held.contains(text));
                    assert forall|other: Seq<char>| listed.contains(other) <==> (held.contains(
                        other,
                    ) || other == text) by {
                        if held.contains(other) {
                            assert(listed[held.index_of(other)] == other);
                        }
                        if other == text {
                            assert(listed[held.len() as int] == other);
                        }
                        if listed.contains(other) && other != text {
                            let place = choose|place: int|
                                0 <= place < listed.len() && listed[place] == other;
                            assert(held[place] == other);
                        }
                    }
                    assert forall|other: Seq<char>| held.contains(other) implies listed.index_of(
                        other,
                    ) == held.index_of(other) by {
                        assert(listed.contains(other));
                        assert(listed[listed.index_of(other)] == other);
                        assert(held[held.index_of(other)] == other);
                        assert(listed[held.index_of(other)] == other);
                    }
                    assert(listed.index_of(text) == held.len()) by {
                        assert(listed.contains(text));
                        assert(listed[listed.index_of(text)] == text);
                        if listed.index_of(text) < held.len() {
                            assert(held[listed.index_of(text)] == text);
                        }
                    }
                    assert(self@ =~= old(self)@.insert(text, value));
                }
            },
        }
    }
}

}

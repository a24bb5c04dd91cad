//! A two-way map between objects `(token identifier, nonce)` and numeric
//! identifiers handed out in increasing order from 1; 0 means "none".
use vstd::prelude::*;
use crate::collections::lemma_index_of_unique;
use crate::errors::ContractError;
use crate::types::{bytes_eq, copy_bytes};

verus! {

/// An object as the mapper sees it: a token identifier and a nonce.
pub type ObjectKey = (Seq<u8>, u64);

/// Spec form of the mapper: the last identifier handed out and the
/// identifier-to-object map.
pub struct MapperView {
    pub last_id: u64,
    pub objects: Map<u64, ObjectKey>,
}

impl MapperView {
    /// The identifier of `obj`, 0 when it is not registered.
    pub open spec fn id_of(self, obj: ObjectKey) -> u64 {
        if exists|id: u64| self.objects.contains_key(id) && self.objects[id] == obj {
            choose|id: u64| self.objects.contains_key(id) && self.objects[id] == obj
        } else {
            0
        }
    }

    /// Identifiers are in `1..=last_id` and no object has two of them.
    pub open spec fn valid(self) -> bool {
        &&& forall|id: u64| #[trigger] self.objects.contains_key(id) ==> 0 < id <= self.last_id
        &&& forall|a: u64, b: u64|
            #![trigger self.objects[a], self.objects[b]]
            self.objects.contains_key(a) && self.objects.contains_key(b) && a != b
                ==> self.objects[a] != self.objects[b]
    }

    pub open spec fn empty() -> MapperView {
        MapperView { last_id: 0, objects: Map::empty() }
    }
}

/// In a valid view, the identifier stored for an object is the one `id_of` gives.
pub proof fn lemma_id_of_stored(m: MapperView, id: u64)
    requires
        m.valid(),
        m.objects.contains_key(id),
    ensures
        m.id_of(m.objects[id]) == id,
{
    let obj = m.objects[id];
    assert(m.objects.contains_key(id) && m.objects[id] == obj);
    let c = choose|c: u64| m.objects.contains_key(c) && m.objects[c] == obj;
    assert(m.objects[c] == m.objects[id]);
}

/// In a valid view, `id_of` is 0 exactly for unregistered objects, and
/// otherwise names the entry that holds the object.
pub proof fn lemma_id_of(m: MapperView, obj: ObjectKey)
    requires
        m.valid(),
    ensures
        m.id_of(obj) == 0 <==> !(exists|id: u64| m.objects.contains_key(id) && m.objects[id] == obj),
        m.id_of(obj) != 0 ==> m.objects.contains_key(m.id_of(obj)) && m.objects[m.id_of(obj)] == obj,
{
}

/// Registering an unregistered object under the next identifier keeps the
/// view valid: the object is then found under that identifier, which exceeds
/// every identifier handed out before, and every other object keeps its own.
pub proof fn lemma_insert_fresh(m: MapperView, obj: ObjectKey)
    requires
        m.valid(),
        m.id_of(obj) == 0,
        m.last_id < u64::MAX,
    ensures
        ({
            let id = (m.last_id + 1) as u64;
            let n = MapperView { last_id: id, objects: m.objects.insert(id, obj) };
            &&& n.valid()
            &&& n.id_of(obj) == id
            &&& forall|old_id: u64| #[trigger] m.objects.contains_key(old_id) ==> old_id < id
            &&& forall|o: ObjectKey| o != obj ==> #[trigger] n.id_of(o) == m.id_of(o)
        }),
{
    let id = (m.last_id + 1) as u64;
    let n = MapperView { last_id: id, objects: m.objects.insert(id, obj) };
    lemma_id_of(m, obj);
    assert(!m.objects.contains_key(id));
    assert forall|a: u64, b: u64|
        n.objects.contains_key(a) && n.objects.contains_key(b) && a != b
            implies #[trigger] n.objects[a] != #[trigger] n.objects[b] by {
        if a == id {
            assert(m.objects.contains_key(b) && m.objects[b] == n.objects[b]);
        } else if b == id {
            assert(m.objects.contains_key(a) && m.objects[a] == n.objects[a]);
        } else {
            assert(m.objects[a] != m.objects[b]);
        }
    }
    assert(n.valid());
    lemma_id_of_stored(n, id);
    assert forall|o: ObjectKey| o != obj implies #[trigger] n.id_of(o) == m.id_of(o) by {
        lemma_id_of(m, o);
        lemma_id_of(n, o);
        if m.id_of(o) != 0 {
            lemma_id_of_stored(n, m.id_of(o));
        } else if n.id_of(o) != 0 {
            let x = n.id_of(o);
            assert(x != id);
            assert(m.objects.contains_key(x) && m.objects[x] == o);
        }
    }
}

/// Removing an identifier keeps the view valid: its object is then
/// unregistered, and every other object keeps its identifier.
pub proof fn lemma_remove_id(m: MapperView, id: u64)
    requires
        m.valid(),
    ensures
        ({
            let n = MapperView { last_id: m.last_id, objects: m.objects.remove(id) };
            &&& n.valid()
            &&& m.objects.contains_key(id) ==> n.id_of(m.objects[id]) == 0
            &&& forall|o: ObjectKey|
                !(m.objects.contains_key(id) && o == m.objects[id]) ==> #[trigger] n.id_of(o)
                    == m.id_of(o)
        }),
{
    let n = MapperView { last_id: m.last_id, objects: m.objects.remove(id) };
    assert forall|a: u64, b: u64|
        n.objects.contains_key(a) && n.objects.contains_key(b) && a != b
            implies #[trigger] n.objects[a] != #[trigger] n.objects[b] by {
        assert(m.objects[a] != m.objects[b]);
    }
    assert(n.valid());
    if m.objects.contains_key(id) {
        let obj = m.objects[id];
        lemma_id_of(n, obj);
        if n.id_of(obj) != 0 {
            let x = n.id_of(obj);
            assert(m.objects.contains_key(x) && m.objects[x] == m.objects[id]);
        }
    }
    assert forall|o: ObjectKey|
        !(m.objects.contains_key(id) && o == m.objects[id]) implies #[trigger] n.id_of(o)
            == m.id_of(o) by {
        lemma_id_of(m, o);
        lemma_id_of(n, o);
        if m.id_of(o) != 0 {
            assert(m.id_of(o) != id);
            lemma_id_of_stored(n, m.id_of(o));
        } else if n.id_of(o) != 0 {
            let x = n.id_of(o);
            assert(m.objects.contains_key(x) && m.objects[x] == o);
        }
    }
}

pub struct ObjectToIdMapper {
    last_id: u64,
    ids: Vec<u64>,
    tokens: Vec<Vec<u8>>,
    nonces: Vec<u64>,
}

impl View for ObjectToIdMapper {
    type V = MapperView;

    closed spec fn view(&self) -> MapperView {
        MapperView {
            last_id: self.last_id,
            objects: Map::new(
                |id: u64| self.ids@.contains(id),
                |id: u64| self.key_at(self.ids@.index_of(id)),
            ),
        }
    }
}

impl ObjectToIdMapper {
    closed spec fn key_at(&self, i: int) -> ObjectKey {
        (self.tokens@[i]@, self.nonces@[i])
    }

    pub closed spec fn wf(&self) -> bool {
        &&& self.ids@.no_duplicates()
        &&& self.ids@.len() == self.tokens@.len()
        &&& self.ids@.len() == self.nonces@.len()
        &&& forall|i: int| 0 <= i < self.ids@.len() ==> 0 < #[trigger] self.ids@[i] <= self.last_id
        &&& forall|i: int, j: int|
            0 <= i < self.ids@.len() && 0 <= j < self.ids@.len() && i != j
                ==> #[trigger] self.key_at(i) != #[trigger] self.key_at(j)
    }

    proof fn lemma_entry(&self, i: int)
        requires
            self.wf(),
            0 <= i < self.ids@.len(),
        ensures
            self@.objects.contains_key(self.ids@[i]),
            self@.objects[self.ids@[i]] == self.key_at(i),
    {
        lemma_index_of_unique(self.ids@, i);
    }

    pub proof fn lemma_valid(&self)
        requires
            self.wf(),
        ensures
            self@.valid(),
    {
        let m = self@;
        assert forall|id: u64| #[trigger] m.objects.contains_key(id) implies 0 < id <= m.last_id by {
            let i = self.ids@.index_of(id);
            assert(self.ids@[i] == id);
        }
        assert forall|a: u64, b: u64|
            m.objects.contains_key(a) && m.objects.contains_key(b) && a != b
                implies #[trigger] m.objects[a] != #[trigger] m.objects[b] by {
            let i = self.ids@.index_of(a);
            let j = self.ids@.index_of(b);
            assert(self.key_at(i) != self.key_at(j));
        }
    }

    /// Index of the entry holding the object, when there is one.
    fn find_object(&self, token: &Vec<u8>, nonce: u64) -> (r: Option<usize>)
        requires
            self.wf(),
        ensures
            match r {
                Some(i) => i < self.ids@.len() && self.key_at(i as int) == (token@, nonce),
                None => forall|i: int|
                    0 <= i < self.ids@.len() ==> #[trigger] self.key_at(i) != (token@, nonce),
            },
    {
        let mut i: usize = 0;
        while i < self.ids.len()
            invariant
                self.wf(),
                i <= self.ids@.len(),
                forall|j: int| 0 <= j < i ==> #[trigger] self.key_at(j) != (token@, nonce),
            decreases self.ids@.len() - i,
        {
            if self.nonces[i] == nonce && bytes_eq(&self.tokens[i], token) {
                return Some(i);
            }
            i = i + 1;
        }
        None
    }

    /// What `find_object` found, in terms of the view.
    proof fn lemma_found(&self, token: Seq<u8>, nonce: u64, r: Option<usize>)
        requires
            self.wf(),
            match r {
                Some(i) => i < self.ids@.len() && self.key_at(i as int) == (token, nonce),
                None => forall|i: int|
                    0 <= i < self.ids@.len() ==> #[trigger] self.key_at(i) != (token, nonce),
            },
        ensures
            self@.valid(),
            match r {
                Some(i) => self@.id_of((token, nonce)) == self.ids@[i as int],
                None => self@.id_of((token, nonce)) == 0,
            },
    {
        self.lemma_valid();
        match r {
            Some(i) => {
                self.lemma_entry(i as int);
                lemma_id_of_stored(self@, self.ids@[i as int]);
            },
            None => {
                if exists|id: u64| self@.objects.contains_key(id) && self@.objects[id] == (token, nonce) {
                    let id = choose|id: u64|
                        self@.objects.contains_key(id) && self@.objects[id] == (token, nonce);
                    let i = self.ids@.index_of(id);
                    assert(self.key_at(i) != (token, nonce));
                }
            },
        }
    }

    pub fn new() -> (r: Self)
        ensures
            r.wf(),
            r@ == MapperView::empty(),
    {
        let r = ObjectToIdMapper { last_id: 0, ids: Vec::new(), tokens: Vec::new(), nonces: Vec::new() };
        assert(r@.objects =~= Map::<u64, ObjectKey>::empty());
        r
    }

    /// The last identifier handed out.
    pub fn last_id(&self) -> (r: u64)
        ensures
            r == self@.last_id,
    {
        self.last_id
    }

    /// The identifier of the object, 0 when it is not registered.
    pub fn get_id(&self, token: &Vec<u8>, nonce: u64) -> (r: u64)
        requires
            self.wf(),
        ensures
            r == self@.id_of((token@, nonce)),
    {
        let found = self.find_object(token, nonce);
        proof {
            self.lemma_found(token@, nonce, found);
        }
        match found {
            Some(i) => self.ids[i],
            None => 0,
        }
    }

    /// The identifier of the object; refused when it is not registered.
    pub fn get_id_non_zero(&self, token: &Vec<u8>, nonce: u64) -> (r: Result<u64, ContractError>)
        requires
            self.wf(),
        ensures
            match r {
                Ok(id) => id == self@.id_of((token@, nonce)) && id != 0,
                Err(e) => e == ContractError::UnknownObject && self@.id_of((token@, nonce)) == 0,
            },
    {
        let id = self.get_id(token, nonce);
        if id == 0 {
            Err(ContractError::UnknownObject)
        } else {
            Ok(id)
        }
    }

    pub fn contains_id(&self, id: u64) -> (r: bool)
        requires
            self.wf(),
        ensures
            r == self@.objects.contains_key(id),
    {
        let mut i: usize = 0;
        while i < self.ids.len()
            invariant
                i <= self.ids@.len(),
                forall|j: int| 0 <= j < i ==> self.ids@[j] != id,
            decreases self.ids@.len() - i,
        {
            if self.ids[i] == id {
                return true;
            }
            i = i + 1;
        }
        false
    }

    fn find_id(&self, id: u64) -> (r: Option<usize>)
        requires
            self.wf(),
        ensures
            match r {
                Some(i) => i < self.ids@.len() && self.ids@[i as int] == id
                    && self@.objects.contains_key(id) && self@.objects[id] == self.key_at(i as int),
                None => !self@.objects.contains_key(id),
            },
    {
        let mut i: usize = 0;
        while i < self.ids.len()
            invariant
                self.wf(),
                i <= self.ids@.len(),
                forall|j: int| 0 <= j < i ==> self.ids@[j] != id,
            decreases self.ids@.len() - i,
        {
            if self.ids[i] == id {
                proof {
                    self.lemma_entry(i as int);
                }
                return Some(i);
            }
            i = i + 1;
        }
        None
    }

    /// The object registered under `id`.
    pub fn get_object(&self, id: u64) -> (r: Option<(Vec<u8>, u64)>)
        requires
            self.wf(),
        ensures
            match r {
                Some(obj) => self@.objects.contains_key(id) && self@.objects[id] == (obj.0@, obj.1),
                None => !self@.objects.contains_key(id),
            },
    {
        match self.find_id(id) {
            Some(i) => Some((copy_bytes(&self.tokens[i]), self.nonces[i])),
            None => None,
        }
    }

    /// Registers an object under the next identifier.
    fn insert_object(&mut self, token: &Vec<u8>, nonce: u64) -> (r: Result<u64, ContractError>)
        requires
            old(self).wf(),
            old(self)@.id_of((token@, nonce)) == 0,
        ensures
            final(self).wf(),
            match r {
                Ok(id) => old(self)@.last_id < u64::MAX && id == old(self)@.last_id + 1
                    && final(self)@ == (MapperView {
                        last_id: id,
                        objects: old(self)@.objects.insert(id, (token@, nonce)),
                    }),
                Err(e) => e == ContractError::IntegerOverflow && old(self)@.last_id == u64::MAX
                    && *final(self) == *old(self),
            },
    {
        if self.last_id == u64::MAX {
            return Err(ContractError::IntegerOverflow);
        }
        let ghost old_self = *self;
        let ghost old_view = self@;
        proof {
            old_self.lemma_valid();
            if old_self.ids@.contains((old_self.last_id + 1) as u64) {
                let i = old_self.ids@.index_of((old_self.last_id + 1) as u64);
                assert(old_self.ids@[i] <= old_self.last_id);
            }
            assert forall|i: int| 0 <= i < old_self.ids@.len() implies
                #[trigger] old_self.key_at(i) != (token@, nonce) by {
                old_self.lemma_entry(i);
                lemma_id_of_stored(old_view, old_self.ids@[i]);
            }
        }
        let id = self.last_id + 1;
        self.last_id = id;
        self.ids.push(id);
        self.tokens.push(copy_bytes(token));
        self.nonces.push(nonce);
        proof {
            let n = old_self.ids@.len() as int;
            assert forall|i: int| 0 <= i < n implies #[trigger] self.key_at(i) == old_self.key_at(i) by {}
            assert(self.key_at(n) == (token@, nonce));
            assert forall|a: int, b: int|
                0 <= a < b < self.ids@.len() implies self.ids@[a] != self.ids@[b] by {
                if b == n {
                    assert(old_self.ids@[a] <= old_self.last_id);
                } else {
                    assert(old_self.ids@[a] != old_self.ids@[b]);
                }
            }
            assert forall|i: int, j: int|
                0 <= i < self.ids@.len() && 0 <= j < self.ids@.len() && i != j
                    implies #[trigger] self.key_at(i) != #[trigger] self.key_at(j) by {
                if i != n && j != n {
                    assert(old_self.key_at(i) != old_self.key_at(j));
                }
            }
            let expected = old_view.objects.insert(id, (token@, nonce));
            assert forall|k: u64| #[trigger] self@.objects.contains_key(k) implies
                expected.contains_key(k) && self@.objects[k] == expected[k] by {
                let j = self.ids@.index_of(k);
                lemma_index_of_unique(self.ids@, j);
                if j == n {
                } else {
                    assert(old_self.ids@[j] == k);
                    lemma_index_of_unique(old_self.ids@, j);
                    old_self.lemma_entry(j);
                }
            }
            assert forall|k: u64| #[trigger] expected.contains_key(k) implies
                self@.objects.contains_key(k) by {
                if k == id {
                    assert(self.ids@[n] == id);
                } else {
                    let j = old_self.ids@.index_of(k);
                    assert(self.ids@[j] == k);
                }
            }
            assert(self@.objects =~= expected);
        }
        Ok(id)
    }

    /// Registers a new object; refused when it is registered already.
    pub fn insert_new(&mut self, token: &Vec<u8>, nonce: u64) -> (r: Result<u64, ContractError>)
        requires
            old(self).wf(),
        ensures
            final(self).wf(),
            match r {
                Ok(id) => old(self)@.id_of((token@, nonce)) == 0 && old(self)@.last_id < u64::MAX
                    && id == old(self)@.last_id + 1
                    && final(self)@ == (MapperView {
                        last_id: id,
                        objects: old(self)@.objects.insert(id, (token@, nonce)),
                    }),
                Err(e) => *final(self) == *old(self) && (
                    if old(self)@.id_of((token@, nonce)) != 0 {
                        e == ContractError::ObjectAlreadyRegistered
                    } else {
                        e == ContractError::IntegerOverflow && old(self)@.last_id == u64::MAX
                    }),
            },
    {
        let existing = self.get_id(token, nonce);
        if existing != 0 {
            return Err(ContractError::ObjectAlreadyRegistered);
        }
        self.insert_object(token, nonce)
    }

    /// The identifier of the object, registering it first when needed.
    pub fn get_id_or_insert(&mut self, token: &Vec<u8>, nonce: u64) -> (r: Result<u64, ContractError>)
        requires
            old(self).wf(),
        ensures
            final(self).wf(),
            old(self)@.id_of((token@, nonce)) != 0 ==> r == Ok::<u64, ContractError>(
                old(self)@.id_of((token@, nonce)),
            ) && *final(self) == *old(self),
            old(self)@.id_of((token@, nonce)) == 0 ==> match r {
                Ok(id) => old(self)@.last_id < u64::MAX && id == old(self)@.last_id + 1
                    && final(self)@ == (MapperView {
                        last_id: id,
                        objects: old(self)@.objects.insert(id, (token@, nonce)),
                    }),
                Err(e) => e == ContractError::IntegerOverflow && old(self)@.last_id == u64::MAX
                    && *final(self) == *old(self),
            },
    {
        let existing = self.get_id(token, nonce);
        if existing != 0 {
            return Ok(existing);
        }
        self.insert_object(token, nonce)
    }

    /// Removes the entry at position `i`.
    fn remove_entry(&mut self, i: usize) -> (r: (Vec<u8>, u64))
        requires
            old(self).wf(),
            i < old(self).ids@.len(),
        ensures
            final(self).wf(),
            old(self)@.objects.contains_key(old(self).ids@[i as int]),
            old(self)@.objects[old(self).ids@[i as int]] == (r.0@, r.1),
            final(self)@ == (MapperView {
                last_id: old(self)@.last_id,
                objects: old(self)@.objects.remove(old(self).ids@[i as int]),
            }),
    {
        let ghost old_self = *self;
        let ghost old_view = self@;
        let ghost id = self.ids@[i as int];
        proof {
            old_self.lemma_entry(i as int);
        }
        let n = self.ids.len() - 1;
        self.ids.swap_remove(i);
        let token = self.tokens.swap_remove(i);
        let nonce = self.nonces.swap_remove(i);
        proof {
            let t = self.ids@;
            let pos = |a: int| if a == i { n as int } else { a };
            assert forall|a: int| 0 <= a < t.len() implies t[a] == old_self.ids@[pos(a)]
                && #[trigger] self.key_at(a) == old_self.key_at(pos(a)) by {}
            assert forall|a: int, b: int| 0 <= a < b < t.len() implies t[a] != t[b] by {
                assert(t[a] == old_self.ids@[pos(a)] && t[b] == old_self.ids@[pos(b)]);
            }
            assert forall|a: int, b: int|
                0 <= a < t.len() && 0 <= b < t.len() && a != b
                    implies #[trigger] self.key_at(a) != #[trigger] self.key_at(b) by {
                assert(old_self.key_at(pos(a)) != old_self.key_at(pos(b)));
            }
            assert forall|a: int| 0 <= a < t.len() implies 0 < #[trigger] t[a] <= self.last_id by {
                assert(t[a] == old_self.ids@[pos(a)]);
            }
            let expected = old_view.objects.remove(id);
            assert forall|k: u64| #[trigger] self@.objects.contains_key(k) implies
                expected.contains_key(k) && self@.objects[k] == expected[k] by {
                let j = t.index_of(k);
                lemma_index_of_unique(t, j);
                let sj = pos(j);
                assert(old_self.ids@[sj] == k);
                lemma_index_of_unique(old_self.ids@, sj);
                old_self.lemma_entry(sj);
                assert(sj != i);
            }
            assert forall|k: u64| #[trigger] expected.contains_key(k) implies
                self@.objects.contains_key(k) by {
                let sj = old_self.ids@.index_of(k);
                lemma_index_of_unique(old_self.ids@, sj);
                assert(sj != i);
                if sj == n {
                    assert(t[i as int] == k);
                } else {
                    assert(t[sj] == k);
                }
            }
            assert(self@.objects =~= expected);
        }
        (token, nonce)
    }

    /// Removes the entry of `id`, handing back its object.
    pub fn remove_by_id(&mut self, id: u64) -> (r: Option<(Vec<u8>, u64)>)
        requires
            old(self).wf(),
        ensures
            final(self).wf(),
            final(self)@ == (MapperView {
                last_id: old(self)@.last_id,
                objects: old(self)@.objects.remove(id),
            }),
            match r {
                Some(obj) => old(self)@.objects.contains_key(id) && old(self)@.objects[id] == (obj.0@, obj.1),
                None => !old(self)@.objects.contains_key(id),
            },
    {
        match self.find_id(id) {
            Some(i) => Some(self.remove_entry(i)),
            None => {
                assert(self@.objects.remove(id) =~= self@.objects);
                None
            },
        }
    }

    /// Removes the entry of the object, handing back its identifier (0 when none).
    pub fn remove_by_object(&mut self, token: &Vec<u8>, nonce: u64) -> (r: u64)
        requires
            old(self).wf(),
        ensures
            final(self).wf(),
            r == old(self)@.id_of((token@, nonce)),
            final(self)@ == (MapperView {
                last_id: old(self)@.last_id,
                objects: old(self)@.objects.remove(r),
            }),
    {
        let found = self.find_object(token, nonce);
        proof {
            self.lemma_found(token@, nonce, found);
        }
        match found {
            Some(i) => {
                let id = self.ids[i];
                self.remove_entry(i);
                id
            },
            None => {
                proof {
                    if self@.objects.contains_key(0) {
                        let j = self.ids@.index_of(0);
                        assert(self.ids@[j] > 0);
                    }
                }
                assert(self@.objects.remove(0) =~= self@.objects);
                0
            },
        }
    }
}

} // verus!

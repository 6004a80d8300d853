use vstd::prelude::*;

use crate::error::RangleError;

verus! {

/// Named per-vertex buffers of a shader program, in the order they were added.
pub struct AttributeBuffers<V> {
    names: Vec<String>,
    buffers: Vec<Vec<V>>,
}

/// Named values shared by every invocation of a shader program.
pub struct UniformMap<V> {
    entries: Vec<(String, V)>,
}

/// Position of the first entry named `name`, if any.
pub open spec fn position_of(names: Seq<Seq<char>>, name: Seq<char>) -> Option<int> {
    if exists|k: int| 0 <= k < names.len() && names[k] == name {
        Some(choose|k: int| 0 <= k < names.len() && names[k] == name)
    } else {
        None
    }
}

pub open spec fn names_unique(names: Seq<Seq<char>>) -> bool {
    forall|i: int, j: int| 0 <= i < j < names.len() ==> names[i] != names[j]
}

impl<V: Copy> AttributeBuffers<V> {
    /// The buffers as (name, values) pairs, in the order they were added.
    pub closed spec fn spec_entries(&self) -> Seq<(Seq<char>, Seq<V>)> {
        Seq::new(self.names@.len(), |k: int| (self.names@[k]@, self.buffers@[k]@))
    }

    pub open spec fn spec_names(&self) -> Seq<Seq<char>> {
        self.spec_entries().map_values(|e: (Seq<char>, Seq<V>)| e.0)
    }

    /// One buffer per name, and no name twice.
    pub closed spec fn wf(&self) -> bool {
        &&& self.names@.len() == self.buffers@.len()
        &&& names_unique(self.spec_names())
    }

    /// Every buffer holds an element at `index`.
    pub open spec fn has_vertex(&self, index: int) -> bool {
        forall|k: int| 0 <= k < self.spec_entries().len() ==> index < (#[trigger] self.spec_entries()[k]).1.len()
    }

    pub fn new() -> (r: Self)
        ensures
            r.wf(),
            r.spec_entries() == Seq::<(Seq<char>, Seq<V>)>::empty(),
    {
        let r = AttributeBuffers { names: Vec::new(), buffers: Vec::new() };
        assert(r.spec_entries() =~= Seq::<(Seq<char>, Seq<V>)>::empty());
        assert(r.spec_names() =~= Seq::<Seq<char>>::empty());
        r
    }

    /// Adds a buffer under `name`; fails, changing nothing, if the name is
    /// already present.
    pub fn add_attribute(&mut self, name: String, buffer: Vec<V>) -> (r: Result<(), RangleError>)
        requires
            old(self).wf(),
        ensures
            final(self).wf(),
            old(self).spec_names().contains(name@) ==> r == Err::<(), RangleError>(
                RangleError::DuplicateShaderAttributes,
            ) && final(self).spec_entries() == old(self).spec_entries(),
            !old(self).spec_names().contains(name@) ==> r is Ok && final(self).spec_entries()
                == old(self).spec_entries().push((name@, buffer@)),
    {
        let ghost names = self.spec_names();
        let mut k: usize = 0;
        while k < self.names.len()
            invariant
                self.wf(),
                *self == *old(self),
                names == self.spec_names(),
                names.len() == self.names@.len(),
                k <= self.names@.len(),
                forall|j: int| 0 <= j < k ==> names[j] != name@,
            decreases self.names@.len() - k,
        {
            assert(names[k as int] == self.names@[k as int]@);
            if self.names[k] == name {
                return Err(RangleError::DuplicateShaderAttributes);
            }
            k += 1;
        }
        assert(!names.contains(name@));
        let ghost old_entries = self.spec_entries();
        self.names.push(name);
        self.buffers.push(buffer);
        assert(self.spec_entries() =~= old_entries.push((name@, buffer@)));
        assert(self.spec_names() =~= names.push(name@));
        Ok(())
    }

    /// The element at `index` of every buffer, with the buffer's name.
    pub fn vertex_attributes(&self, index: usize) -> (r: Vec<(String, V)>)
        requires
            self.wf(),
            self.has_vertex(index as int),
        ensures
            r@.len() == self.spec_entries().len(),
            forall|k: int|
                0 <= k < r@.len() ==> (#[trigger] r@[k]).0@ == self.spec_entries()[k].0 && r@[k].1
                    == self.spec_entries()[k].1[index as int],
    {
        let mut out: Vec<(String, V)> = Vec::new();
        let mut k: usize = 0;
        while k < self.names.len()
            invariant
                self.wf(),
                self.has_vertex(index as int),
                k <= self.names@.len(),
                out@.len() == k,
                forall|j: int|
                    0 <= j < k ==> (#[trigger] out@[j]).0@ == self.spec_entries()[j].0 && out@[j].1
                        == self.spec_entries()[j].1[index as int],
            decreases self.names@.len() - k,
        {
            assert(self.spec_entries()[k as int] == (self.names@[k as int]@, self.buffers@[k as int]@));
            let name = self.names[k].clone();
            let value = self.buffers[k][index];
            out.push((name, value));
            k += 1;
        }
        out
    }
}

impl<V: Copy> UniformMap<V> {
    /// The uniforms as (name, value) pairs, each name once.
    pub closed spec fn spec_entries(&self) -> Seq<(Seq<char>, V)> {
        self.entries@.map_values(|e: (String, V)| (e.0@, e.1))
    }

    pub open spec fn spec_names(&self) -> Seq<Seq<char>> {
        self.spec_entries().map_values(|e: (Seq<char>, V)| e.0)
    }

    pub open spec fn wf(&self) -> bool {
        names_unique(self.spec_names())
    }

    /// The value of the uniform `name`, if it is set.
    pub open spec fn spec_get(&self, name: Seq<char>) -> Option<V> {
        match position_of(self.spec_names(), name) {
            Some(k) => Some(self.spec_entries()[k].1),
            None => None,
        }
    }

    pub fn new() -> (r: Self)
        ensures
            r.wf(),
            r.spec_entries() == Seq::<(Seq<char>, V)>::empty(),
    {
        let r = UniformMap { entries: Vec::new() };
        assert(r.spec_entries() =~= Seq::<(Seq<char>, V)>::empty());
        assert(r.spec_names() =~= Seq::<Seq<char>>::empty());
        r
    }

    /// Sets `name` to `value`, replacing an earlier value under that name.
    pub fn set_uniform(&mut self, name: String, value: V)
        requires
            old(self).wf(),
        ensures
            final(self).wf(),
            final(self).spec_get(name@) == Some(value),
            forall|n: Seq<char>| n != name@ ==> #[trigger] final(self).spec_get(n) == old(self).spec_get(n),
    {
        let ghost names = self.spec_names();
        let mut k: usize = 0;
        while k < self.entries.len()
            invariant
                self.wf(),
                *self == *old(self),
                names == self.spec_names(),
                names.len() == self.entries@.len(),
                k <= self.entries@.len(),
                forall|j: int| 0 <= j < k ==> names[j] != name@,
            decreases self.entries@.len() - k,
        {
            assert(names[k as int] == self.entries@[k as int].0@);
            if self.entries[k].0 == name {
                let ghost old_entries = self.spec_entries();
                self.entries.set(k, (name, value));
                proof {
                    assert(self.spec_entries() =~= old_entries.update(k as int, (names[k as int], value)));
                    assert(self.spec_names() =~= names);
                    lemma_position_unique(names, k as int);
                    assert forall|n: Seq<char>| n != name@ implies #[trigger] self.spec_get(n) == old(self).spec_get(n) by {
                        if let Some(p) = position_of(names, n) {
                            assert(p != k);
                        }
                    }
                }
                return;
            }
            k += 1;
        }
        let ghost old_entries = self.spec_entries();
        self.entries.push((name, value));
        proof {
            assert(self.spec_entries() =~= old_entries.push((name@, value)));
            let new_names = names.push(name@);
            assert(self.spec_names() =~= new_names);
            lemma_position_unique(new_names, names.len() as int);
            assert forall|n: Seq<char>| n != name@ implies #[trigger] self.spec_get(n) == old(self).spec_get(n) by {
                match position_of(names, n) {
                    Some(p) => {
                        lemma_position_unique(new_names, p);
                    },
                    None => {
                        assert(!(exists|j: int| 0 <= j < new_names.len() && new_names[j] == n));
                    },
                }
            }
        }
    }

    /// The value of the uniform `name`, if it is set.
    pub fn get(&self, name: &String) -> (r: Option<V>)
        requires
            self.wf(),
        ensures
            r == self.spec_get(name@),
    {
        let ghost names = self.spec_names();
        let mut k: usize = 0;
        while k < self.entries.len()
            invariant
                self.wf(),
                names == self.spec_names(),
                names.len() == self.entries@.len(),
                k <= self.entries@.len(),
                forall|j: int| 0 <= j < k ==> names[j] != name@,
            decreases self.entries@.len() - k,
        {
            assert(names[k as int] == self.entries@[k as int].0@);
            if self.entries[k].0 == *name {
                proof {
                    lemma_position_unique(names, k as int);
                }
                return Some(self.entries[k].1);
            }
            k += 1;
        }
        None
    }
}

/// In a sequence without repeats, the name at `k` is found at `k`.
proof fn lemma_position_unique(names: Seq<Seq<char>>, k: int)
    requires
        names_unique(names),
        0 <= k < names.len(),
    ensures
        position_of(names, names[k]) == Some(k),
{
    let p = choose|j: int| 0 <= j < names.len() && names[j] == names[k];
    if p < k {
        assert(names[p] != names[k]);
    } else if p > k {
        assert(names[k] != names[p]);
    }
}

} // verus!

//! A two-way lookup between platform identifiers and human-readable names,
//! built once from two parallel sequences.
use vstd::prelude::*;

verus! {

/// The character sequences of a list of strings.
pub open spec fn views(v: Seq<String>) -> Seq<Seq<char>> {
    v.map_values(|s: String| s@)
}

/// The character sequence of an optional string.
pub open spec fn opt_view(r: Option<&String>) -> Option<Seq<char>> {
    match r {
        Some(s) => Some(s@),
        None => None,
    }
}

/// No value occurs twice.
pub open spec fn distinct(s: Seq<Seq<char>>) -> bool {
    forall|i: int, j: int| 0 <= i < s.len() && 0 <= j < s.len() && i != j ==> s[i] != s[j]
}

/// What `keys[i] -> vals[i]` gives for `k`, if `k` is among the keys.
pub open spec fn lookup(keys: Seq<Seq<char>>, vals: Seq<Seq<char>>, k: Seq<char>) -> Option<Seq<char>> {
    if exists|i: int| 0 <= i < keys.len() && keys[i] == k {
        let i = choose|i: int| 0 <= i < keys.len() && keys[i] == k;
        Some(vals[i])
    } else {
        None
    }
}

/// The two parallel sequences a map is built from.
pub struct BiMapBuilder {
    pub human: Vec<String>,
    pub id: Vec<String>,
}

#[derive(Debug, Clone, Copy, PartialEq, Eq)]
pub enum BuildError {
    LengthMismatch,
    DuplicateId,
    DuplicateHuman,
}

pub struct BiMap {
    ids: Vec<String>,
    humans: Vec<String>,
}

/// Is `x` one of `v[0..n]`; if so, at which position.
fn find(v: &Vec<String>, x: &String, n: usize) -> (r: Option<usize>)
    requires
        n <= v@.len(),
    ensures
        r matches Some(k) ==> k < n && v@[k as int]@ == x@,
        r is None ==> forall|i: int| 0 <= i < n ==> v@[i]@ != x@,
{
    let mut k: usize = 0;
    while k < n
        invariant
            k <= n <= v@.len(),
            forall|i: int| 0 <= i < k ==> v@[i]@ != x@,
        decreases n - k,
    {
        if v[k] == *x {
            return Some(k);
        }
        k = k + 1;
    }
    None
}

fn all_distinct(v: &Vec<String>) -> (r: bool)
    ensures
        r == distinct(views(v@)),
{
    let mut k: usize = 0;
    while k < v.len()
        invariant
            k <= v@.len(),
            distinct(views(v@.subrange(0, k as int))),
        decreases v@.len() - k,
    {
        match find(v, &v[k], k) {
            Some(j) => {
                assert(views(v@)[j as int] == views(v@)[k as int]);
                return false;
            },
            None => {},
        }
        assert(views(v@.subrange(0, k + 1)) =~= views(v@.subrange(0, k as int)).push(v@[k as int]@));
        k = k + 1;
    }
    assert(v@.subrange(0, k as int) =~= v@);
    true
}

impl BiMap {
    pub closed spec fn id_seq(&self) -> Seq<Seq<char>> {
        views(self.ids@)
    }

    pub closed spec fn human_seq(&self) -> Seq<Seq<char>> {
        views(self.humans@)
    }

    /// Every identifier has exactly one name, and every name one identifier.
    pub open spec fn wf(&self) -> bool {
        &&& self.id_seq().len() == self.human_seq().len()
        &&& distinct(self.id_seq())
        &&& distinct(self.human_seq())
    }

    /// The name of an identifier.
    pub open spec fn human_of(&self, id: Seq<char>) -> Option<Seq<char>> {
        lookup(self.id_seq(), self.human_seq(), id)
    }

    /// The identifier of a name.
    pub open spec fn id_of(&self, human: Seq<char>) -> Option<Seq<char>> {
        lookup(self.human_seq(), self.id_seq(), human)
    }

    /// Fails when the sequences differ in length or either holds a value twice.
    pub fn new(b: BiMapBuilder) -> (r: Result<BiMap, BuildError>)
        ensures
            b.id@.len() != b.human@.len() <==> r == Err::<BiMap, BuildError>(BuildError::LengthMismatch),
            b.id@.len() == b.human@.len() && !distinct(views(b.id@))
                <==> r == Err::<BiMap, BuildError>(BuildError::DuplicateId),
            b.id@.len() == b.human@.len() && distinct(views(b.id@)) && !distinct(views(b.human@))
                <==> r == Err::<BiMap, BuildError>(BuildError::DuplicateHuman),
            r matches Ok(m) ==> {
                &&& m.wf()
                &&& m.id_seq() == views(b.id@)
                &&& m.human_seq() == views(b.human@)
            },
    {
        if b.id.len() != b.human.len() {
            return Err(BuildError::LengthMismatch);
        }
        if !all_distinct(&b.id) {
            return Err(BuildError::DuplicateId);
        }
        if !all_distinct(&b.human) {
            return Err(BuildError::DuplicateHuman);
        }
        Ok(BiMap { ids: b.id, humans: b.human })
    }

    pub fn len(&self) -> (r: usize)
        ensures
            r == self.id_seq().len(),
    {
        self.ids.len()
    }

    pub fn id_at(&self, i: usize) -> (r: &String)
        requires
            i < self.id_seq().len(),
        ensures
            r@ == self.id_seq()[i as int],
    {
        &self.ids[i]
    }

    pub fn human_at(&self, i: usize) -> (r: &String)
        requires
            i < self.human_seq().len(),
        ensures
            r@ == self.human_seq()[i as int],
    {
        &self.humans[i]
    }

    /// The name of `id`, if it is known.
    pub fn get_human(&self, id: &String) -> (r: Option<&String>)
        requires
            self.wf(),
        ensures
            opt_view(r) == self.human_of(id@),
    {
        match find(&self.ids, id, self.ids.len()) {
            Some(k) => {
                proof {
                    lemma_lookup_at(self.id_seq(), self.human_seq(), k as int);
                }
                Some(&self.humans[k])
            },
            None => None,
        }
    }

    /// The identifier of `human`, if it is known.
    pub fn get_id(&self, human: &String) -> (r: Option<&String>)
        requires
            self.wf(),
        ensures
            opt_view(r) == self.id_of(human@),
    {
        match find(&self.humans, human, self.humans.len()) {
            Some(k) => {
                proof {
                    lemma_lookup_at(self.human_seq(), self.id_seq(), k as int);
                }
                Some(&self.ids[k])
            },
            None => None,
        }
    }

    pub fn contains_id(&self, id: &String) -> (r: bool)
        requires
            self.wf(),
        ensures
            r == self.human_of(id@) is Some,
    {
        self.get_human(id).is_some()
    }

    pub fn contains_human(&self, human: &String) -> (r: bool)
        requires
            self.wf(),
        ensures
            r == self.id_of(human@) is Some,
    {
        self.get_id(human).is_some()
    }
}

/// With distinct keys, the lookup of the key at `k` gives the value at `k`.
pub proof fn lemma_lookup_at(keys: Seq<Seq<char>>, vals: Seq<Seq<char>>, k: int)
    requires
        distinct(keys),
        keys.len() == vals.len(),
        0 <= k < keys.len(),
    ensures
        lookup(keys, vals, keys[k]) == Some(vals[k]),
{
    let i = choose|i: int| 0 <= i < keys.len() && keys[i] == keys[k];
    assert(i == k);
}

/// A map built from distinct, equally long sequences sends each identifier to
/// the name at the same position, and each name back to that identifier.
pub proof fn lemma_build_lookup(m: BiMap, b: BiMapBuilder)
    requires
        m.wf(),
        m.id_seq() == views(b.id@),
        m.human_seq() == views(b.human@),
    ensures
        forall|i: int| 0 <= i < b.id@.len() ==> {
            &&& #[trigger] m.human_of(b.id@[i]@) == Some(b.human@[i]@)
            &&& m.id_of(b.human@[i]@) == Some(b.id@[i]@)
        },
{
    assert forall|i: int| 0 <= i < b.id@.len() implies {
        &&& #[trigger] m.human_of(b.id@[i]@) == Some(b.human@[i]@)
        &&& m.id_of(b.human@[i]@) == Some(b.id@[i]@)
    } by {
        lemma_lookup_at(m.id_seq(), m.human_seq(), i);
        lemma_lookup_at(m.human_seq(), m.id_seq(), i);
    }
}

} // verus!

//! The pantry: the name-keyed collection of stocked ingredients.
use vstd::prelude::*;
use vstd::std_specs::iter::IteratorSpec;
use crate::ingredient::Ingredient;
use crate::text::{less_than, text_lt, lemma_text_lt_irreflexive, lemma_text_lt_transitive, lemma_text_lt_total};

verus! {

broadcast use vstd::std_specs::vec::group_vec_axioms;

/// The ingredients of a pantry, keyed by name; a later one wins.
pub open spec fn by_name(s: Seq<Ingredient>) -> Map<Seq<char>, Ingredient>
    decreases s.len(),
{
    if s.len() == 0 {
        Map::empty()
    } else {
        by_name(s.drop_last()).insert(s.last().meta.name@, s.last())
    }
}

/// Names strictly increase along `s`.
pub open spec fn sorted_by_name(s: Seq<Ingredient>) -> bool {
    forall|i: int, j: int| 0 <= i < j < s.len() ==> text_lt(s[i].meta.name@, s[j].meta.name@)
}

proof fn lemma_by_name(s: Seq<Ingredient>)
    requires
        sorted_by_name(s),
    ensures
        by_name(s).dom().finite(),
        by_name(s).len() == s.len(),
        forall|i: int| 0 <= i < s.len() ==> #[trigger] by_name(s).contains_key(s[i].meta.name@)
            && by_name(s)[s[i].meta.name@] == s[i],
        forall|k: Seq<char>| #[trigger]
            by_name(s).contains_key(k) ==> exists|i: int| 0 <= i < s.len() && s[i].meta.name@ == k,
    decreases s.len(),
{
    if s.len() > 0 {
        let t = s.drop_last();
        assert(sorted_by_name(t));
        lemma_by_name(t);
        let last = s.last();
        if by_name(t).contains_key(last.meta.name@) {
            let i = choose|i: int| 0 <= i < t.len() && t[i].meta.name@ == last.meta.name@;
            assert(text_lt(s[i].meta.name@, s[s.len() - 1].meta.name@));
            lemma_text_lt_irreflexive(last.meta.name@);
        }
        assert forall|i: int| 0 <= i < s.len() implies #[trigger] by_name(s).contains_key(
            s[i].meta.name@,
        ) && by_name(s)[s[i].meta.name@] == s[i] by {
            if i < s.len() - 1 {
                assert(t[i] == s[i]);
                assert(text_lt(s[i].meta.name@, s[s.len() - 1].meta.name@));
                lemma_text_lt_irreflexive(s[i].meta.name@);
            }
        }
        assert forall|k: Seq<char>| #[trigger] by_name(s).contains_key(k) implies exists|i: int|
            0 <= i < s.len() && s[i].meta.name@ == k by {
            if k != last.meta.name@ {
                let i = choose|i: int| 0 <= i < t.len() && t[i].meta.name@ == k;
                assert(s[i] == t[i]);
            } else {
                assert(s[s.len() - 1].meta.name@ == k);
            }
        }
    }
}

/// The pantry: a persisted collection of ingredients with the ingredient's
/// name as its only identity. It lists them in name order.
pub struct Pantry {
    path: String,
    ingredients: Vec<Ingredient>,
}

impl Pantry {
    /// Ingredients are held in strictly increasing name order.
    pub closed spec fn wf(&self) -> bool {
        sorted_by_name(self.ingredients@)
    }

    /// The ingredients, keyed by name.
    pub closed spec fn view(&self) -> Map<Seq<char>, Ingredient> {
        by_name(self.ingredients@)
    }

    /// The ingredients in the order in which the pantry holds them.
    pub closed spec fn items(&self) -> Seq<Ingredient> {
        self.ingredients@
    }

    /// Where the pantry is stored.
    pub closed spec fn spec_path(&self) -> Seq<char> {
        self.path@
    }

    /// An empty pantry stored at `path`.
    pub fn new(path: String) -> (r: Pantry)
        ensures
            r.wf(),
            r.view() == Map::<Seq<char>, Ingredient>::empty(),
            r.spec_path() == path@,
    {
        Pantry { path, ingredients: Vec::new() }
    }

    /// Where the pantry is stored.
    pub fn path(&self) -> (r: &String)
        ensures
            r@ == self.spec_path(),
    {
        &self.path
    }

    /// Position of the first ingredient whose name is not before `name`.
    fn slot(&self, name: &str) -> (r: usize)
        requires
            self.wf(),
        ensures
            r <= self.ingredients@.len(),
            forall|i: int| 0 <= i < r ==> text_lt(#[trigger] self.ingredients@[i].meta.name@, name@),
            r < self.ingredients@.len() ==> !text_lt(self.ingredients@[r as int].meta.name@, name@),
            forall|i: int|
                r < i < self.ingredients@.len() ==> text_lt(
                    name@,
                    #[trigger] self.ingredients@[i].meta.name@,
                ),
    {
        let mut i: usize = 0;
        while i < self.ingredients.len()
            invariant
                i <= self.ingredients@.len(),
                self.wf(),
                forall|j: int| 0 <= j < i ==> text_lt(#[trigger] self.ingredients@[j].meta.name@, name@),
            decreases self.ingredients.len() - i,
        {
            if !less_than(self.ingredients[i].meta.name.as_str(), name) {
                proof {
                    let s = self.ingredients@;
                    assert forall|j: int| i < j < s.len() implies text_lt(
                        name@,
                        #[trigger] s[j].meta.name@,
                    ) by {
                        assert(text_lt(s[i as int].meta.name@, s[j].meta.name@));
                        if s[i as int].meta.name@ == name@ {
                        } else {
                            lemma_text_lt_total(s[i as int].meta.name@, name@);
                            lemma_text_lt_transitive(name@, s[i as int].meta.name@, s[j].meta.name@);
                        }
                    }
                }
                return i;
            }
            i += 1;
        }
        i
    }

    /// Stores `ingredient` under its name, replacing wholly any ingredient
    /// of that name.
    pub fn store(&mut self, ingredient: Ingredient) -> (r: Result<(), StoreError>)
        requires
            old(self).wf(),
        ensures
            r is Ok,
            final(self).wf(),
            final(self).view() == old(self).view().insert(ingredient.meta.name@, ingredient),
            final(self).spec_path() == old(self).spec_path(),
    {
        let ghost s0 = self.ingredients@;
        let ghost name = ingredient.meta.name@;
        let i = self.slot(ingredient.meta.name.as_str());
        proof {
            lemma_by_name(s0);
        }
        if i < self.ingredients.len() && !less_than(
            ingredient.meta.name.as_str(),
            self.ingredients[i].meta.name.as_str(),
        ) {
            proof {
                if name != s0[i as int].meta.name@ {
                    lemma_text_lt_total(name, s0[i as int].meta.name@);
                }
            }
            self.ingredients.set(i, ingredient);
            proof {
                let s = self.ingredients@;
                assert(sorted_by_name(s)) by {
                    assert forall|a: int, b: int| 0 <= a < b < s.len() implies text_lt(
                        s[a].meta.name@,
                        s[b].meta.name@,
                    ) by {
                        assert(s0[a].meta.name@ == s[a].meta.name@ || a == i);
                        assert(s0[b].meta.name@ == s[b].meta.name@ || b == i);
                    }
                }
                lemma_by_name(s);
                assert forall|k: Seq<char>| #[trigger] by_name(s).contains_key(k) == by_name(
                    s0,
                ).insert(name, s[i as int]).contains_key(k) by {
                    if by_name(s0).contains_key(k) {
                        let j = choose|j: int| 0 <= j < s0.len() && s0[j].meta.name@ == k;
                        assert(s[j].meta.name@ == k || j == i);
                    }
                }
                assert forall|k: Seq<char>| #[trigger] by_name(s).contains_key(k) implies by_name(
                    s,
                )[k] == by_name(s0).insert(name, s[i as int])[k] by {
                    let j = choose|j: int| 0 <= j < s.len() && s[j].meta.name@ == k;
                    if j != i {
                        assert(s0[j] == s[j]);
                    }
                }
                assert(by_name(s) =~= by_name(s0).insert(name, s[i as int]));
            }
        } else {
            self.ingredients.insert(i, ingredient);
            proof {
                let s = self.ingredients@;
                assert(sorted_by_name(s)) by {
                    assert forall|a: int, b: int| 0 <= a < b < s.len() implies text_lt(
                        s[a].meta.name@,
                        s[b].meta.name@,
                    ) by {
                        if b < i {
                            assert(s[a] == s0[a] && s[b] == s0[b]);
                        } else if b == i {
                            assert(s[a] == s0[a]);
                        } else if a < i {
                            assert(s[a] == s0[a] && s[b] == s0[b - 1]);
                            if b - 1 > i {
                                lemma_text_lt_transitive(s0[a].meta.name@, name, s0[b - 1].meta.name@);
                            } else {
                                lemma_text_lt_total(name, s0[i as int].meta.name@);
                                lemma_text_lt_transitive(s0[a].meta.name@, name, s0[b - 1].meta.name@);
                            }
                        } else if a == i {
                            assert(s[b] == s0[b - 1]);
                            if b - 1 > i {
                            } else {
                                lemma_text_lt_total(name, s0[i as int].meta.name@);
                            }
                        } else {
                            assert(s[a] == s0[a - 1] && s[b] == s0[b - 1]);
                        }
                    }
                }
                lemma_by_name(s);
                assert forall|k: Seq<char>| #[trigger] by_name(s).contains_key(k) == by_name(
                    s0,
                ).insert(name, s[i as int]).contains_key(k) by {
                    if by_name(s0).contains_key(k) {
                        let j = choose|j: int| 0 <= j < s0.len() && s0[j].meta.name@ == k;
                        if j < i {
                            assert(s[j] == s0[j]);
                        } else {
                            assert(s[j + 1] == s0[j]);
                        }
                    }
                    if by_name(s).contains_key(k) {
                        let j = choose|j: int| 0 <= j < s.len() && s[j].meta.name@ == k;
                        if j < i {
                            assert(s[j] == s0[j]);
                        } else if j > i {
                            assert(s[j] == s0[j - 1]);
                        }
                    }
                }
                assert forall|k: Seq<char>| #[trigger] by_name(s).contains_key(k) implies by_name(
                    s,
                )[k] == by_name(s0).insert(name, s[i as int])[k] by {
                    let j = choose|j: int| 0 <= j < s.len() && s[j].meta.name@ == k;
                    if j < i {
                        assert(s[j] == s0[j]);
                        lemma_text_lt_irreflexive(name);
                    } else if j > i {
                        assert(s[j] == s0[j - 1]);
                        lemma_text_lt_irreflexive(name);
                    }
                }
                assert(by_name(s) =~= by_name(s0).insert(name, s[i as int]));
            }
        }
        Ok(())
    }

    /// Removes the ingredient named `name` and hands it back; `None` when
    /// there is none, the pantry then unchanged.
    pub fn discard(&mut self, name: &str) -> (r: Option<Ingredient>)
        requires
            old(self).wf(),
        ensures
            final(self).wf(),
            final(self).spec_path() == old(self).spec_path(),
            match r {
                Some(x) => old(self).view().contains_key(name@) && x == old(self).view()[name@],
                None => !old(self).view().contains_key(name@),
            },
            final(self).view() == old(self).view().remove(name@),
    {
        let ghost s0 = self.ingredients@;
        let i = self.slot(name);
        proof {
            lemma_by_name(s0);
        }
        if i < self.ingredients.len() && !less_than(name, self.ingredients[i].meta.name.as_str()) {
            proof {
                if name@ != s0[i as int].meta.name@ {
                    lemma_text_lt_total(name@, s0[i as int].meta.name@);
                }
            }
            let x = self.ingredients.remove(i);
            proof {
                let s = self.ingredients@;
                assert(sorted_by_name(s)) by {
                    assert forall|a: int, b: int| 0 <= a < b < s.len() implies text_lt(
                        s[a].meta.name@,
                        s[b].meta.name@,
                    ) by {
                        if b < i {
                            assert(s[a] == s0[a] && s[b] == s0[b]);
                        } else if a < i {
                            assert(s[a] == s0[a] && s[b] == s0[b + 1]);
                        } else {
                            assert(s[a] == s0[a + 1] && s[b] == s0[b + 1]);
                        }
                    }
                }
                lemma_by_name(s);
                assert forall|k: Seq<char>| #[trigger] by_name(s).contains_key(k) == by_name(
                    s0,
                ).remove(name@).contains_key(k) by {
                    if by_name(s0).contains_key(k) && k != name@ {
                        let j = choose|j: int| 0 <= j < s0.len() && s0[j].meta.name@ == k;
                        if j < i {
                            assert(s[j] == s0[j]);
                        } else {
                            assert(s[j - 1] == s0[j]);
                        }
                    }
                    if by_name(s).contains_key(k) {
                        let j = choose|j: int| 0 <= j < s.len() && s[j].meta.name@ == k;
                        if j < i {
                            assert(s[j] == s0[j]);
                            assert(text_lt(s0[j].meta.name@, s0[i as int].meta.name@));
                            lemma_text_lt_irreflexive(name@);
                        } else {
                            assert(s[j] == s0[j + 1]);
                            assert(text_lt(s0[i as int].meta.name@, s0[j + 1].meta.name@));
                            lemma_text_lt_irreflexive(name@);
                        }
                    }
                }
                assert forall|k: Seq<char>| #[trigger] by_name(s).contains_key(k) implies by_name(
                    s,
                )[k] == by_name(s0).remove(name@)[k] by {
                    let j = choose|j: int| 0 <= j < s.len() && s[j].meta.name@ == k;
                    if j < i {
                        assert(s[j] == s0[j]);
                    } else {
                        assert(s[j] == s0[j + 1]);
                    }
                }
                assert(by_name(s) =~= by_name(s0).remove(name@));
            }
            Some(x)
        } else {
            proof {
                if by_name(s0).contains_key(name@) {
                    let j = choose|j: int| 0 <= j < s0.len() && s0[j].meta.name@ == name@;
                    if j < i {
                        lemma_text_lt_irreflexive(name@);
                    } else if j > i {
                        lemma_text_lt_irreflexive(name@);
                    }
                }
                assert(by_name(s0) =~= by_name(s0).remove(name@));
            }
            None
        }
    }

    /// The ingredient named `name`.
    pub fn get(&self, name: &str) -> (r: Option<&Ingredient>)
        requires
            self.wf(),
        ensures
            match r {
                Some(x) => self.view().contains_key(name@) && *x == self.view()[name@],
                None => !self.view().contains_key(name@),
            },
    {
        let i = self.slot(name);
        proof {
            lemma_by_name(self.ingredients@);
        }
        if i < self.ingredients.len() && !less_than(name, self.ingredients[i].meta.name.as_str()) {
            proof {
                if name@ != self.ingredients@[i as int].meta.name@ {
                    lemma_text_lt_total(name@, self.ingredients@[i as int].meta.name@);
                }
            }
            Some(&self.ingredients[i])
        } else {
            proof {
                let s0 = self.ingredients@;
                if by_name(s0).contains_key(name@) {
                    let j = choose|j: int| 0 <= j < s0.len() && s0[j].meta.name@ == name@;
                    lemma_text_lt_irreflexive(name@);
                }
            }
            None
        }
    }

    /// Every ingredient, in ascending name order.
    pub fn list(&self) -> (r: Vec<&Ingredient>)
        requires
            self.wf(),
        ensures
            self.view().dom().finite(),
            r@.len() == self.view().len(),
            forall|k: Seq<char>| #[trigger]
                self.view().contains_key(k) ==> exists|i: int|
                    0 <= i < r@.len() && r@[i].meta.name@ == k,
            forall|i: int, j: int|
                0 <= i < j < r@.len() ==> text_lt(r@[i].meta.name@, r@[j].meta.name@),
            forall|i: int|
                0 <= i < r@.len() ==> self.view().contains_key(r@[i].meta.name@) && self.view()[r@[i].meta.name@]
                    == *r@[i],
    {
        proof {
            lemma_by_name(self.ingredients@);
        }
        let mut out: Vec<&Ingredient> = Vec::new();
        let mut i: usize = 0;
        while i < self.ingredients.len()
            invariant
                i <= self.ingredients@.len(),
                out@.len() == i,
                forall|j: int| 0 <= j < i ==> *out@[j] == self.ingredients@[j],
            decreases self.ingredients.len() - i,
        {
            out.push(&self.ingredients[i]);
            i += 1;
        }
        proof {
            lemma_by_name(self.ingredients@);
            assert forall|k: Seq<char>| #[trigger] self.view().contains_key(k) implies exists|j: int|
                0 <= j < out@.len() && out@[j].meta.name@ == k by {
                let j = choose|j: int|
                    0 <= j < self.ingredients@.len() && self.ingredients@[j].meta.name@ == k;
                assert(*out@[j] == self.ingredients@[j]);
            }
        }
        out
    }

    /// The ingredients, in ascending name order.
    pub fn iter(&self) -> (r: std::slice::Iter<'_, Ingredient>)
        ensures
            r.remaining() == self.items().map_values(|x: Ingredient| &x),
    {
        self.ingredients.as_slice().iter()
    }

    /// Removes every ingredient.
    pub fn clean(&mut self)
        ensures
            final(self).wf(),
            final(self).view() == Map::<Seq<char>, Ingredient>::empty(),
            final(self).spec_path() == old(self).spec_path(),
    {
        self.ingredients = Vec::new();
    }
}

/// Stocking two ingredients of one name leaves the pantry as if only the
/// second had been stocked: it holds the second, and into an empty pantry
/// the two leave a single ingredient.
pub proof fn lemma_store_upsert(
    before: Pantry,
    after_first: Pantry,
    after_second: Pantry,
    f1: Ingredient,
    f2: Ingredient,
)
    requires
        before.wf(),
        after_first.view() == before.view().insert(f1.meta.name@, f1),
        after_second.view() == after_first.view().insert(f2.meta.name@, f2),
        f1.meta.name@ == f2.meta.name@,
    ensures
        after_second.view() == before.view().insert(f2.meta.name@, f2),
        after_second.view()[f2.meta.name@] == f2,
        after_second.view().len() == before.view().len() + if before.view().contains_key(
            f2.meta.name@,
        ) {
            0int
        } else {
            1int
        },
        before.view() == Map::<Seq<char>, Ingredient>::empty() ==> after_second.view().len() == 1,
{
    lemma_by_name(before.ingredients@);
    assert(after_second.view() =~= before.view().insert(f2.meta.name@, f2));
}

/// Discarding a name that the pantry does not hold changes nothing.
pub proof fn lemma_discard_absent(first: Pantry, second: Pantry, name: Seq<char>)
    requires
        first.wf(),
        !first.view().contains_key(name),
        second.view() == first.view().remove(name),
    ensures
        second.view() == first.view(),
        second.view().len() == first.view().len(),
{
    assert(second.view() =~= first.view());
}

/// What can go wrong with the pantry's backing file.
#[derive(Debug, Clone, PartialEq, Eq)]
pub enum StoreError {
    /// The file could not be read or written.
    Io(String),
    /// The file's content is not an encoded pantry.
    Decode(String),
}

} // verus!

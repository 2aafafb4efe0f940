//! The spacer inventory, kept thickest first.

use crate::decimal::{decimal_units, parse_decimal};
use vstd::prelude::*;
use vstd::seq_lib::*;
use vstd::string::*;

verus! {

/// One kind of shim: a label, a thickness in units, and whether it may be
/// used in a fit.
#[derive(Debug)]
pub struct Spacer {
    pub name: String,
    pub thickness: u64,
    pub enabled: bool,
}

/// Why a change to the inventory was refused.
#[derive(Debug, Clone, Copy, PartialEq, Eq, Structural)]
pub enum RegistryError {
    /// The thickness text is not a decimal number above zero.
    InvalidThickness,
}

/// The ordered inventory of spacers.
pub struct SpacerRegistry {
    spacers: Vec<Spacer>,
}

/// Every thickness is above zero.
pub open spec fn all_positive(s: Seq<Spacer>) -> bool {
    forall|i: int| 0 <= i < s.len() ==> (#[trigger] s[i]).thickness > 0
}

/// No spacer is followed by a thicker one.
pub open spec fn thickest_first(s: Seq<Spacer>) -> bool {
    forall|i: int, j: int|
        0 <= i <= j < s.len() ==> (#[trigger] s[i]).thickness >= (#[trigger] s[j]).thickness
}

/// The thickness that a text gives a spacer: its decimal value, which must
/// be above zero.
pub open spec fn thickness_of_text(text: Seq<char>) -> Option<nat> {
    match decimal_units(text) {
        Some(t) => if t > 0 {
            Some(t)
        } else {
            None
        },
        None => None,
    }
}

/// `after` is `before` with one enabled spacer of the given name and
/// thickness added at `pos`, in thickest-first order.
pub open spec fn is_addition(
    before: Seq<Spacer>,
    after: Seq<Spacer>,
    pos: int,
    name: Seq<char>,
    thickness: nat,
) -> bool {
    &&& 0 <= pos < after.len()
    &&& after.len() == before.len() + 1
    &&& after[pos].name@ == name
    &&& after[pos].thickness == thickness
    &&& after[pos].enabled
    &&& after.to_multiset() == before.to_multiset().insert(after[pos])
    &&& thickest_first(after)
    &&& thickest_first(before) ==> after == before.insert(pos, after[pos])
}

/// `after` is `before` without the spacer that stood at `index`, in
/// thickest-first order.
pub open spec fn is_removal(before: Seq<Spacer>, after: Seq<Spacer>, index: int) -> bool {
    &&& 0 <= index < before.len()
    &&& after.len() == before.len() - 1
    &&& after.to_multiset() == before.to_multiset().remove(before[index])
    &&& thickest_first(after)
}

impl View for SpacerRegistry {
    type V = Seq<Spacer>;

    closed spec fn view(&self) -> Seq<Spacer> {
        self.spacers@
    }
}

/// Puts `s` into the thickest-first `v`, behind every spacer that is at
/// least as thick, and returns where it went.
fn insert_sorted(v: &mut Vec<Spacer>, s: Spacer) -> (pos: usize)
    requires
        thickest_first(old(v)@),
    ensures
        thickest_first(final(v)@),
        pos <= old(v)@.len(),
        final(v)@ == old(v)@.insert(pos as int, s),
        forall|j: int| 0 <= j < pos ==> (#[trigger] old(v)@[j]).thickness >= s.thickness,
        pos < old(v)@.len() ==> old(v)@[pos as int].thickness < s.thickness,
{
    let mut pos: usize = 0;
    while pos < v.len() && v[pos].thickness >= s.thickness
        invariant
            pos <= v@.len(),
            v@ == old(v)@,
            forall|j: int| 0 <= j < pos ==> (#[trigger] v@[j]).thickness >= s.thickness,
        decreases v@.len() - pos,
    {
        pos += 1;
    }
    let ghost before = v@;
    v.insert(pos, s);
    proof {
        let after = v@;
        assert forall|i: int, j: int| 0 <= i <= j < after.len() implies (#[trigger] after[i]).thickness
            >= (#[trigger] after[j]).thickness by {
            let a = if i < pos {
                before[i]
            } else if i == pos {
                s
            } else {
                before[i - 1]
            };
            let b = if j < pos {
                before[j]
            } else if j == pos {
                s
            } else {
                before[j - 1]
            };
            assert(after[i] == a);
            assert(after[j] == b);
            if j > pos {
                assert(before[pos as int].thickness >= before[j - 1].thickness);
            }
        }
    }
    pos
}

/// Orders `v` thickest first. Spacers of equal thickness keep their order,
/// and a vector that is already in order comes back unchanged.
fn sorted_thickest_first(v: Vec<Spacer>) -> (out: Vec<Spacer>)
    ensures
        thickest_first(out@),
        out@.to_multiset() == v@.to_multiset(),
        out@.len() == v@.len(),
        thickest_first(v@) ==> out@ == v@,
        all_positive(v@) ==> all_positive(out@),
{
    let mut rest: Vec<Spacer> = v;
    let mut out: Vec<Spacer> = Vec::new();
    proof {
        assert(out@ + rest@ =~= v@);
        assert(out@.to_multiset().add(rest@.to_multiset()) =~= v@.to_multiset()) by {
            broadcast use vstd::multiset::group_multiset_axioms;

            out@.to_multiset_ensures();
            assert(out@.to_multiset().len() == 0);
        }
    }
    while rest.len() > 0
        invariant
            thickest_first(out@),
            out@.to_multiset().add(rest@.to_multiset()) == v@.to_multiset(),
            out@.len() + rest@.len() == v@.len(),
            thickest_first(v@) ==> out@ + rest@ == v@,
            all_positive(v@) ==> all_positive(out@) && all_positive(rest@),
        decreases rest@.len(),
    {
        let ghost out0 = out@;
        let ghost rest0 = rest@;
        let s: Spacer = rest.remove(0);
        let pos: usize = insert_sorted(&mut out, s);
        proof {
            broadcast use vstd::multiset::group_multiset_axioms;

            rest0.to_multiset_ensures();
            to_multiset_insert(out0, pos as int, s);
            assert(rest0.contains(rest0[0]));
            assert(rest@.to_multiset() =~= rest0.to_multiset().remove(s));
            assert(out@.to_multiset().add(rest@.to_multiset()) =~= out0.to_multiset().add(
                rest0.to_multiset(),
            ));
            if thickest_first(v@) {
                let whole = out0 + rest0;
                if pos < out0.len() {
                    assert(whole[pos as int] == out0[pos as int]);
                    assert(whole[out0.len() as int] == s);
                    assert(whole[pos as int].thickness >= whole[out0.len() as int].thickness);
                }
                assert(out@ + rest@ =~= whole);
            }
            if all_positive(v@) {
                assert(s == rest0[0]);
                assert forall|i: int| 0 <= i < out@.len() implies (#[trigger] out@[i]).thickness
                    > 0 by {
                    if i < pos {
                        assert(out@[i] == out0[i]);
                    } else if i > pos {
                        assert(out@[i] == out0[i - 1]);
                    }
                }
                assert forall|i: int| 0 <= i < rest@.len() implies (#[trigger] rest@[i]).thickness
                    > 0 by {
                    assert(rest@[i] == rest0[i + 1]);
                }
            }
        }
    }
    proof {
        assert(rest@ =~= Seq::<Spacer>::empty());
        assert(out@ + rest@ =~= out@);
        assert(out@.to_multiset().add(rest@.to_multiset()) =~= out@.to_multiset()) by {
            broadcast use vstd::multiset::group_multiset_axioms;

            rest@.to_multiset_ensures();
            assert(rest@.to_multiset().len() == 0);
        }
    }
    out
}

/// Number of spacers in the built-in inventory.
pub const BUILTIN_SPACERS: usize = 11;

/// Thickness of the built-in spacer at position `i`, thickest first.
pub open spec fn builtin_thickness(i: int) -> nat {
    if i == 0 {
        500_000
    } else if i == 1 {
        375_000
    } else if i == 2 {
        315_000
    } else if i == 3 {
        250_000
    } else if i == 4 {
        181_000
    } else if i == 5 {
        125_000
    } else if i == 6 {
        62_500
    } else if i == 7 {
        39_200
    } else if i == 8 {
        31_250
    } else if i == 9 {
        31_250
    } else {
        21_500
    }
}

/// Name of the built-in spacer at position `i`.
pub open spec fn builtin_name(i: int) -> Seq<char> {
    if i == 0 {
        "1/2 Nylon"@
    } else if i == 1 {
        "3/8 Nylon"@
    } else if i == 2 {
        "Large Black"@
    } else if i == 3 {
        "1/4 Nylon"@
    } else if i == 4 {
        "Small Black"@
    } else if i == 5 {
        "1/8 Nylon"@
    } else if i == 6 {
        "Thick Teflon"@
    } else if i == 7 {
        "Thick Steel"@
    } else if i == 8 {
        "Black Steel"@
    } else if i == 9 {
        "Thin Teflon"@
    } else {
        "Thin Steel"@
    }
}

/// `s` is the built-in spacer of position `i`, enabled.
pub open spec fn is_builtin(s: Spacer, i: int) -> bool {
    s.name@ == builtin_name(i) && s.thickness == builtin_thickness(i) && s.enabled
}

/// The built-in spacer of position `i`.
fn builtin_spacer(i: usize) -> (s: Spacer)
    requires
        i < 11,
    ensures
        is_builtin(s, i as int),
{
    let (name, thickness): (&'static str, u64) = if i == 0 {
        ("1/2 Nylon", 500_000u64)
    } else if i == 1 {
        ("3/8 Nylon", 375_000u64)
    } else if i == 2 {
        ("Large Black", 315_000u64)
    } else if i == 3 {
        ("1/4 Nylon", 250_000u64)
    } else if i == 4 {
        ("Small Black", 181_000u64)
    } else if i == 5 {
        ("1/8 Nylon", 125_000u64)
    } else if i == 6 {
        ("Thick Teflon", 62_500u64)
    } else if i == 7 {
        ("Thick Steel", 39_200u64)
    } else if i == 8 {
        ("Black Steel", 31_250u64)
    } else if i == 9 {
        ("Thin Teflon", 31_250u64)
    } else {
        ("Thin Steel", 21_500u64)
    };
    Spacer { name: String::from_str(name), thickness, enabled: true }
}

impl SpacerRegistry {
    /// Every spacer of the inventory has a thickness above zero. This holds
    /// of every inventory, whatever was done to it.
    #[verifier::type_invariant]
    pub open spec fn wf(&self) -> bool {
        all_positive(self@)
    }

    /// An inventory without spacers.
    pub fn new() -> (r: Self)
        ensures
            r@ == Seq::<Spacer>::empty(),
    {
        SpacerRegistry { spacers: Vec::new() }
    }

    /// The inventory of a first run: the eleven built-in spacers, all
    /// enabled, thickest first.
    pub fn builtin() -> (r: Self)
        ensures
            thickest_first(r@),
            r@.len() == 11,
            forall|i: int| 0 <= i < 11 ==> is_builtin(#[trigger] r@[i], i),
    {
        let mut spacers: Vec<Spacer> = Vec::new();
        let mut i: usize = 0;
        while i < BUILTIN_SPACERS
            invariant
                i <= 11,
                spacers@.len() == i,
                forall|j: int| 0 <= j < i ==> is_builtin(#[trigger] spacers@[j], j),
            decreases 11 - i,
        {
            spacers.push(builtin_spacer(i));
            i += 1;
        }
        SpacerRegistry { spacers }
    }

    /// An inventory of the given spacers, put in thickest-first order.
    ///
    /// A spacer whose thickness is zero makes the whole list invalid; the
    /// list is then handed back as it came.
    pub fn from_spacers(spacers: Vec<Spacer>) -> (r: Result<Self, Vec<Spacer>>)
        ensures
            match r {
                Ok(registry) => {
                    &&& all_positive(spacers@)
                    &&& thickest_first(registry@)
                    &&& registry@.to_multiset() == spacers@.to_multiset()
                    &&& registry@.len() == spacers@.len()
                    &&& thickest_first(spacers@) ==> registry@ == spacers@
                },
                Err(rejected) => !all_positive(spacers@) && rejected@ == spacers@,
            },
    {
        let mut i: usize = 0;
        while i < spacers.len()
            invariant
                i <= spacers@.len(),
                forall|j: int| 0 <= j < i ==> (#[trigger] spacers@[j]).thickness > 0,
            decreases spacers@.len() - i,
        {
            if spacers[i].thickness == 0 {
                return Err(spacers);
            }
            i += 1;
        }
        Ok(SpacerRegistry { spacers: sorted_thickest_first(spacers) })
    }

    /// The number of spacers.
    pub fn len(&self) -> (n: usize)
        ensures
            n == self@.len(),
    {
        self.spacers.len()
    }

    /// The spacer at `index`.
    pub fn get(&self, index: usize) -> (s: &Spacer)
        requires
            index < self@.len(),
        ensures
            *s == self@[index as int],
    {
        &self.spacers[index]
    }

    /// Restores thickest-first order. Nothing is added or lost, and an
    /// inventory that is already in order stays as it is.
    pub fn resort(&mut self)
        ensures
            thickest_first(final(self)@),
            final(self)@.to_multiset() == old(self)@.to_multiset(),
            final(self)@.len() == old(self)@.len(),
            thickest_first(old(self)@) ==> final(self)@ == old(self)@,
    {
        proof {
            use_type_invariant(&*self);
        }
        let mut taken: Vec<Spacer> = Vec::new();
        core::mem::swap(&mut self.spacers, &mut taken);
        self.spacers = sorted_thickest_first(taken);
    }

    /// Adds an enabled spacer and restores thickest-first order.
    ///
    /// The thickness is read from decimal text. Where the text is not a
    /// decimal number above zero the inventory stays as it is and the error
    /// says so. On success the result is the position of the new spacer.
    pub fn add(&mut self, name: &str, thickness_text: &str) -> (r: Result<usize, RegistryError>)
        ensures
            match r {
                Ok(pos) => {
                    &&& thickness_of_text(thickness_text@) is Some
                    &&& is_addition(
                        old(self)@,
                        final(self)@,
                        pos as int,
                        name@,
                        thickness_of_text(thickness_text@).unwrap(),
                    )
                },
                Err(e) => {
                    &&& e == RegistryError::InvalidThickness
                    &&& thickness_of_text(thickness_text@) is None
                    &&& final(self)@ == old(self)@
                },
            },
    {
        let thickness: u64 = match parse_decimal(thickness_text) {
            Some(t) => t,
            None => {
                return Err(RegistryError::InvalidThickness);
            },
        };
        if thickness == 0 {
            return Err(RegistryError::InvalidThickness);
        }
        proof {
            use_type_invariant(&*self);
        }
        let spacer = Spacer { name: String::from_str(name), thickness, enabled: true };
        let mut taken: Vec<Spacer> = Vec::new();
        core::mem::swap(&mut self.spacers, &mut taken);
        let mut ordered: Vec<Spacer> = sorted_thickest_first(taken);
        let ghost mid = ordered@;
        let pos: usize = insert_sorted(&mut ordered, spacer);
        proof {
            to_multiset_insert(mid, pos as int, spacer);
            assert(ordered@[pos as int] == spacer);
            assert forall|i: int| 0 <= i < ordered@.len() implies (#[trigger] ordered@[i]).thickness
                > 0 by {
                if i < pos {
                    assert(ordered@[i] == mid[i]);
                } else if i > pos {
                    assert(ordered@[i] == mid[i - 1]);
                }
            }
        }
        self.spacers = ordered;
        Ok(pos)
    }

    /// Removes the spacer at `index` and restores thickest-first order.
    /// The positions of other spacers may change.
    pub fn remove(&mut self, index: usize) -> (removed: Spacer)
        requires
            index < old(self)@.len(),
        ensures
            removed == old(self)@[index as int],
            is_removal(old(self)@, final(self)@, index as int),
            final(self)@.len() == old(self)@.len() - 1,
    {
        proof {
            use_type_invariant(&*self);
        }
        let mut taken: Vec<Spacer> = Vec::new();
        core::mem::swap(&mut self.spacers, &mut taken);
        let ghost before = taken@;
        let removed: Spacer = taken.swap_remove(index);
        proof {
            broadcast use vstd::multiset::group_multiset_axioms;

            let last = before.last();
            let moved = before.update(index as int, last);
            to_multiset_update(before, index as int, last);
            moved.to_multiset_ensures();
            assert(moved.remove(moved.len() - 1) =~= moved.drop_last());
            assert(moved[moved.len() - 1] == last);
            assert(taken@.to_multiset() =~= before.to_multiset().remove(before[index as int]));
            assert forall|i: int| 0 <= i < taken@.len() implies (#[trigger] taken@[i]).thickness
                > 0 by {
                if i == index {
                    assert(taken@[i] == before.last());
                } else {
                    assert(taken@[i] == before[i]);
                }
            }
        }
        self.spacers = sorted_thickest_first(taken);
        removed
    }

    /// Gives the spacer at `index` a new thickness, read from decimal text.
    ///
    /// Where the text is not a decimal number above zero nothing changes and
    /// the error says so. The spacer keeps its position: the order is
    /// restored by `resort`, which the caller runs when the edit is done.
    pub fn update_thickness(&mut self, index: usize, thickness_text: &str) -> (r: Result<
        (),
        RegistryError,
    >)
        requires
            index < old(self)@.len(),
        ensures
            match r {
                Ok(_) => {
                    &&& thickness_of_text(thickness_text@) is Some
                    &&& final(self)@.len() == old(self)@.len()
                    &&& final(self)@[index as int].thickness == thickness_of_text(
                        thickness_text@,
                    ).unwrap()
                    &&& final(self)@[index as int].name == old(self)@[index as int].name
                    &&& final(self)@[index as int].enabled == old(self)@[index as int].enabled
                    &&& forall|j: int|
                        0 <= j < old(self)@.len() && j != index ==> final(self)@[j] == old(
                            self,
                        )@[j]
                },
                Err(e) => {
                    &&& e == RegistryError::InvalidThickness
                    &&& thickness_of_text(thickness_text@) is None
                    &&& final(self)@ == old(self)@
                },
            },
    {
        let thickness: u64 = match parse_decimal(thickness_text) {
            Some(t) => t,
            None => {
                return Err(RegistryError::InvalidThickness);
            },
        };
        if thickness == 0 {
            return Err(RegistryError::InvalidThickness);
        }
        proof {
            use_type_invariant(&*self);
        }
        let mut taken: Vec<Spacer> = Vec::new();
        core::mem::swap(&mut self.spacers, &mut taken);
        let s: Spacer = taken.remove(index);
        taken.insert(index, Spacer { name: s.name, thickness, enabled: s.enabled });
        self.spacers = taken;
        Ok(())
    }

    /// Gives the spacer at `index` a new name. Any text is a name.
    pub fn rename(&mut self, index: usize, name: &str)
        requires
            index < old(self)@.len(),
        ensures
            final(self)@.len() == old(self)@.len(),
            final(self)@[index as int].name@ == name@,
            final(self)@[index as int].thickness == old(self)@[index as int].thickness,
            final(self)@[index as int].enabled == old(self)@[index as int].enabled,
            forall|j: int|
                0 <= j < old(self)@.len() && j != index ==> final(self)@[j] == old(self)@[j],
            thickest_first(old(self)@) ==> thickest_first(final(self)@),
    {
        proof {
            use_type_invariant(&*self);
        }
        let mut taken: Vec<Spacer> = Vec::new();
        core::mem::swap(&mut self.spacers, &mut taken);
        let s: Spacer = taken.remove(index);
        taken.insert(
            index,
            Spacer { name: String::from_str(name), thickness: s.thickness, enabled: s.enabled },
        );
        self.spacers = taken;
    }

    /// Enables the spacer at `index` if it was disabled, and disables it if
    /// it was enabled. The order is untouched.
    pub fn toggle_enabled(&mut self, index: usize)
        requires
            index < old(self)@.len(),
        ensures
            final(self)@.len() == old(self)@.len(),
            final(self)@[index as int].enabled == !old(self)@[index as int].enabled,
            final(self)@[index as int].name == old(self)@[index as int].name,
            final(self)@[index as int].thickness == old(self)@[index as int].thickness,
            forall|j: int|
                0 <= j < old(self)@.len() && j != index ==> final(self)@[j] == old(self)@[j],
            thickest_first(old(self)@) ==> thickest_first(final(self)@),
    {
        proof {
            use_type_invariant(&*self);
        }
        let mut taken: Vec<Spacer> = Vec::new();
        core::mem::swap(&mut self.spacers, &mut taken);
        let s: Spacer = taken.remove(index);
        taken.insert(index, Spacer { name: s.name, thickness: s.thickness, enabled: !s.enabled });
        self.spacers = taken;
    }
}

/// Adding a spacer and then removing it at the position where it went gives
/// back the spacers that were there before, each as often as before, in
/// thickest-first order.
pub proof fn lemma_add_then_remove(
    before: Seq<Spacer>,
    added: Seq<Spacer>,
    pos: int,
    name: Seq<char>,
    thickness: nat,
    after: Seq<Spacer>,
)
    requires
        is_addition(before, added, pos, name, thickness),
        is_removal(added, after, pos),
    ensures
        after.to_multiset() == before.to_multiset(),
        after.len() == before.len(),
        thickest_first(after),
{
    broadcast use vstd::multiset::group_multiset_axioms;

    assert(after.to_multiset() =~= before.to_multiset());
    after.to_multiset_ensures();
    before.to_multiset_ensures();
}

} // verus!

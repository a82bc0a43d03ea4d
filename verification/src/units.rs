//! The four kinds of unit: what describes each of them, and what each is once
//! it is loaded.

pub mod interface;
pub mod jig;
pub mod scenario;
pub mod test;

use crate::unit::{name_views, UnitIncompatibleReason, UnitName, UnitNameView};
use crate::unitlibrary::UnitLibrary;
use crate::units::jig::JigView;
use crate::unittable::TableView;
use vstd::prelude::*;

verus! {

/// Whether a unit that lists `jigs` can be loaded while `loaded` are the
/// loaded jigs: it lists none, or one of those it lists is loaded.
pub open spec fn compatible(jigs: Seq<UnitNameView>, loaded: TableView<JigView>) -> bool {
    jigs.len() == 0 || exists|i: int| 0 <= i < jigs.len() && loaded.contains(#[trigger] jigs[i])
}

/// What the compatibility check answers.
pub open spec fn compatibility(jigs: Seq<UnitNameView>, loaded: TableView<JigView>) -> Result<
    (),
    UnitIncompatibleReason,
> {
    if compatible(jigs, loaded) {
        Ok(())
    } else {
        Err(UnitIncompatibleReason::IncompatibleJig)
    }
}

/// Checks a list of jigs against the jigs that `library` has loaded.
pub fn check_jigs(jigs: &Vec<UnitName>, library: &UnitLibrary) -> (r: Result<
    (),
    UnitIncompatibleReason,
>)
    requires
        library.tables_wf(),
    ensures
        r == compatibility(name_views(jigs@), library@.jigs.live),
{
    if jigs.len() == 0 {
        return Ok(());
    }
    let mut i: usize = 0;
    while i < jigs.len()
        invariant
            library.tables_wf(),
            i <= jigs.len(),
            forall|j: int| 0 <= j < i ==> !library@.jigs.live.contains(#[trigger] name_views(jigs@)[j]),
        decreases jigs.len() - i,
    {
        if library.jig_is_loaded(&jigs[i]) {
            assert(library@.jigs.live.contains(name_views(jigs@)[i as int]));
            return Ok(());
        }
        i += 1;
    }
    Err(UnitIncompatibleReason::IncompatibleJig)
}

/// Whether `names` holds `name`.
pub fn names_contain(names: &Vec<UnitName>, name: &UnitName) -> (r: bool)
    ensures
        r == name_views(names@).contains(name@),
{
    let mut i: usize = 0;
    while i < names.len()
        invariant
            i <= names.len(),
            forall|j: int| 0 <= j < i ==> name_views(names@)[j] != name@,
        decreases names.len() - i,
    {
        if names[i].same(name) {
            assert(name_views(names@)[i as int] == name@);
            return true;
        }
        i += 1;
    }
    false
}

/// A value that names other units and must be looked at again when one of
/// them changes.
pub trait Dependent: View {
    /// The units that a value with this view depends on.
    spec fn depends_on(view: Self::V) -> Seq<UnitNameView>;

    /// Whether the value depends on `name`.
    fn depends(&self, name: &UnitName) -> (r: bool)
        ensures
            r == Self::depends_on(self@).contains(name@),
    ;
}

} // verus!

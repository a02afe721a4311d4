//! The template library that a host assembles from its built-in core
//! templates and a template directory.

use vstd::prelude::*;
use vstd::string::*;
use super::template::{library_entries, TemplateLibrary};
use crate::text::{has_prefix, strip_prefix};

verus! {

/// The core templates `core`, each filed under `core/`.
pub open spec fn filed_under_core(core: Seq<(Seq<char>, Seq<char>)>) -> Seq<(Seq<char>, Seq<char>)>
    decreases core.len(),
{
    if core.len() == 0 {
        Seq::empty()
    } else {
        filed_under_core(core.drop_last()).push(("core/"@ + core.last().0, core.last().1))
    }
}

/// The files of `own` whose paths lie outside `core/`.
pub open spec fn outside_core(own: Seq<(Seq<char>, Seq<char>)>) -> Seq<(Seq<char>, Seq<char>)>
    decreases own.len(),
{
    if own.len() == 0 {
        Seq::empty()
    } else if has_prefix(own.last().0, "core/"@) {
        outside_core(own.drop_last())
    } else {
        outside_core(own.drop_last()).push(own.last())
    }
}

impl TemplateLibrary {
    /// The library of the core templates `core`, filed under `core/`, and of
    /// the directory's own files `own` outside `core/`, which names only the
    /// core templates; `embedded_default` is the built-in default template.
    pub fn assemble(embedded_default: String, core: Vec<(String, String)>, own: Vec<(String, String)>) -> (library:
        Self)
        ensures
            library.embedded_default@ == embedded_default@,
            library_entries(library.files@) == filed_under_core(library_entries(core@)) + outside_core(
                library_entries(own@),
            ),
    {
        let ghost core_entries = library_entries(core@);
        let ghost own_entries = library_entries(own@);
        let mut files: Vec<(String, String)> = Vec::new();
        let mut i: usize = 0;
        while i < core.len()
            invariant
                i <= core@.len(),
                core_entries == library_entries(core@),
                library_entries(files@) == filed_under_core(core_entries.take(i as int)),
            decreases core@.len() - i,
        {
            let path = String::from_str("core/").concat(core[i].0.as_str());
            let text = String::from_str(core[i].1.as_str());
            let ghost before = files@;
            files.push((path, text));
            proof {
                let step = core_entries.take(i + 1);
                assert(step.drop_last() =~= core_entries.take(i as int));
                assert(step.last() == core_entries[i as int]);
                assert(library_entries(files@) =~= library_entries(before).push(
                    ("core/"@ + core_entries[i as int].0, core_entries[i as int].1),
                ));
            }
            i = i + 1;
        }
        assert(core_entries.take(core@.len() as int) =~= core_entries);
        let ghost prefix = library_entries(files@);
        let mut k: usize = 0;
        assert(own_entries.take(0) =~= Seq::<(Seq<char>, Seq<char>)>::empty());
        assert(prefix + outside_core(own_entries.take(0)) =~= prefix);
        while k < own.len()
            invariant
                k <= own@.len(),
                own_entries == library_entries(own@),
                library_entries(files@) == prefix + outside_core(own_entries.take(k as int)),
            decreases own@.len() - k,
        {
            let ghost before = files@;
            let keep = match strip_prefix(own[k].0.as_str(), "core/") {
                Some(_) => false,
                None => true,
            };
            proof {
                let step = own_entries.take(k + 1);
                assert(step.drop_last() =~= own_entries.take(k as int));
                assert(step.last() == own_entries[k as int]);
            }
            if keep {
                let path = String::from_str(own[k].0.as_str());
                let text = String::from_str(own[k].1.as_str());
                files.push((path, text));
                assert(library_entries(files@) =~= library_entries(before).push(own_entries[k as int]));
                assert(prefix + outside_core(own_entries.take(k + 1)) =~= (prefix + outside_core(
                    own_entries.take(k as int),
                )).push(own_entries[k as int]));
            }
            k = k + 1;
        }
        assert(own_entries.take(own@.len() as int) =~= own_entries);
        TemplateLibrary { embedded_default, files }
    }
}

} // verus!

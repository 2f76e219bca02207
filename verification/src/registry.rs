//! The file types that an analyzer knows: how they are kept, and how one is
//! found by its name or by an extension.

use vstd::prelude::*;
use crate::config::FileTypeView;
use crate::text::join;

verus! {

/// Whether `i` is the place of the first of `file_types` that is called `name`.
pub open spec fn is_first_named(file_types: Seq<FileTypeView>, name: Seq<char>, i: int) -> bool {
    &&& 0 <= i < file_types.len()
    &&& file_types[i].name == name
    &&& forall|k: int| 0 <= k < i ==> (#[trigger] file_types[k]).name != name
}

/// The place of the first of `file_types` that is called `name`.
pub open spec fn position_of_name(file_types: Seq<FileTypeView>, name: Seq<char>) -> Option<int> {
    if exists|i: int| is_first_named(file_types, name, i) {
        Some(choose|i: int| is_first_named(file_types, name, i))
    } else {
        None
    }
}

/// Whether `i` is the place of the first of `file_types` that lists `extension`.
pub open spec fn is_first_with_extension(
    file_types: Seq<FileTypeView>,
    extension: Seq<char>,
    i: int,
) -> bool {
    &&& 0 <= i < file_types.len()
    &&& file_types[i].extensions.contains(extension)
    &&& forall|k: int|
        0 <= k < i ==> !(#[trigger] file_types[k]).extensions.contains(extension)
}

/// The place of the first of `file_types` that lists `extension`.
pub open spec fn position_of_extension(file_types: Seq<FileTypeView>, extension: Seq<char>) -> Option<int> {
    if exists|i: int| is_first_with_extension(file_types, extension, i) {
        Some(choose|i: int| is_first_with_extension(file_types, extension, i))
    } else {
        None
    }
}

/// The first of `file_types` that lists `extension`. Extensions are compared as
/// they are written; where several file types list one, the first has it.
pub open spec fn file_type_of(file_types: Seq<FileTypeView>, extension: Seq<char>) -> Option<FileTypeView> {
    match position_of_extension(file_types, extension) {
        Some(i) => Some(file_types[i]),
        None => None,
    }
}

/// Whether no two of `file_types` have one name.
pub open spec fn names_distinct(file_types: Seq<FileTypeView>) -> bool {
    forall|i: int, j: int|
        0 <= i < j < file_types.len() ==> (#[trigger] file_types[i]).name != (
        #[trigger] file_types[j]).name
}

/// `registry` with `file_type` added. A file type of the same name is replaced
/// where it stands; a new name goes to the end.
pub open spec fn register(registry: Seq<FileTypeView>, file_type: FileTypeView) -> Seq<FileTypeView> {
    match position_of_name(registry, file_type.name) {
        Some(i) => registry.update(i, file_type),
        None => registry.push(file_type),
    }
}

/// The registry that holds `file_types`, added one after the other: one entry
/// for each name, with what was said last of that name, in the order in which
/// the names first came.
pub open spec fn registry_of(file_types: Seq<FileTypeView>) -> Seq<FileTypeView>
    decreases file_types.len(),
{
    if file_types.len() == 0 {
        Seq::empty()
    } else {
        register(registry_of(file_types.drop_last()), file_types.last())
    }
}

/// How the extensions of the file type called `name` are shown: one after the
/// other, with a comma and a space between each two. Empty where `registry`
/// has no such file type.
pub open spec fn extensions_display(registry: Seq<FileTypeView>, name: Seq<char>) -> Seq<char> {
    match position_of_name(registry, name) {
        Some(i) => join(registry[i].extensions, ", "@),
        None => Seq::empty(),
    }
}

/// Where a file type is called `name`, one is the first to be.
pub proof fn lemma_named_has_position(file_types: Seq<FileTypeView>, name: Seq<char>, i: int)
    requires
        0 <= i < file_types.len(),
        file_types[i].name == name,
    ensures
        position_of_name(file_types, name) is Some,
    decreases i,
{
    if exists|k: int| 0 <= k < i && file_types[k].name == name {
        let k: int = choose|k: int| 0 <= k < i && file_types[k].name == name;
        lemma_named_has_position(file_types, name, k);
    } else {
        assert(is_first_named(file_types, name, i));
    }
}

/// Among distinct names, the file type called `name` is the first to be.
pub proof fn lemma_position_of_distinct_name(registry: Seq<FileTypeView>, i: int)
    requires
        names_distinct(registry),
        0 <= i < registry.len(),
    ensures
        position_of_name(registry, registry[i].name) == Some(i),
{
    let name = registry[i].name;
    assert(is_first_named(registry, name, i));
    let k: int = choose|k: int| is_first_named(registry, name, k);
    assert(k == i);
}

/// Adding a file type keeps the names distinct.
pub proof fn lemma_register_keeps_names_distinct(registry: Seq<FileTypeView>, file_type: FileTypeView)
    requires
        names_distinct(registry),
    ensures
        names_distinct(register(registry, file_type)),
{
    let after = register(registry, file_type);
    match position_of_name(registry, file_type.name) {
        Some(p) => {
            assert(is_first_named(registry, file_type.name, p));
            assert forall|i: int, j: int| 0 <= i < j < after.len() implies (#[trigger] after[i]).name
                != (#[trigger] after[j]).name by {
                assert(after[i].name == registry[i].name);
                assert(after[j].name == registry[j].name);
            }
        },
        None => {
            assert forall|i: int, j: int| 0 <= i < j < after.len() implies (#[trigger] after[i]).name
                != (#[trigger] after[j]).name by {
                if j == registry.len() {
                    if registry[i].name == file_type.name {
                        lemma_named_has_position(registry, file_type.name, i);
                    }
                } else {
                    assert(after[i] == registry[i]);
                    assert(after[j] == registry[j]);
                }
            }
        },
    }
}

} // verus!

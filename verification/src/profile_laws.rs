use vstd::prelude::*;

use crate::profiles::{
    deleted_file, meta_fields, meta_key, saved_file, JsonLeafView, JsonNodeView, ProfileFileView,
};

verus! {

/// Saving profile `name` stores its settings under its name and records `last_profile` as the
/// last profile used.
pub proof fn law_save_records(
    m: Map<Seq<char>, JsonNodeView>,
    name: Seq<char>,
    config: JsonNodeView,
    last_profile: Seq<char>,
)
    requires
        name != meta_key(),
    ensures
        match saved_file(ProfileFileView::Object(m), name, Some(config), last_profile) {
            ProfileFileView::Object(m2) => {
                &&& m2.dom().contains(name)
                &&& m2[name] == config
                &&& meta_fields(m2).dom().contains("last_profile"@)
                &&& meta_fields(m2)["last_profile"@] == JsonLeafView::Str(last_profile)
                &&& forall|k: Seq<char>|
                    k != name && k != meta_key() ==> (#[trigger] m2.dom().contains(k)
                        == m.dom().contains(k) && (m.dom().contains(k) ==> m2[k] == m[k]))
            },
            ProfileFileView::Other(_) => false,
        },
{
}

/// Deleting profile `name` removes it and keeps every other profile; when it was recorded as
/// the last profile used, that record becomes empty.
pub proof fn law_delete_removes(m: Map<Seq<char>, JsonNodeView>, name: Seq<char>)
    requires
        name != meta_key(),
    ensures
        match deleted_file(ProfileFileView::Object(m), name) {
            ProfileFileView::Object(m2) => {
                &&& !m2.dom().contains(name)
                &&& forall|k: Seq<char>|
                    k != name && k != meta_key() ==> (#[trigger] m2.dom().contains(k)
                        == m.dom().contains(k) && (m.dom().contains(k) ==> m2[k] == m[k]))
                &&& m.dom().contains(meta_key()) == m2.dom().contains(meta_key())
                &&& meta_fields(m).dom().contains("last_profile"@) && meta_fields(m)["last_profile"@]
                    == JsonLeafView::Str(name) ==> meta_fields(m2)["last_profile"@]
                    == JsonLeafView::Str(seq![])
                &&& !(meta_fields(m).dom().contains("last_profile"@) && meta_fields(
                    m,
                )["last_profile"@] == JsonLeafView::Str(name)) ==> meta_fields(m2) == meta_fields(
                    m,
                )
            },
            ProfileFileView::Other(_) => false,
        },
{
    let m1 = m.remove(name);
    assert(m1.dom().contains(meta_key()) == m.dom().contains(meta_key()));
    if m1.dom().contains(meta_key()) {
        assert(m1[meta_key()] == m[meta_key()]);
    }
}

/// Deleting a profile just saved as the last one used leaves neither the profile nor the record
/// of it.
pub proof fn law_save_then_delete(
    m: Map<Seq<char>, JsonNodeView>,
    name: Seq<char>,
    config: JsonNodeView,
)
    requires
        name != meta_key(),
    ensures
        match deleted_file(saved_file(ProfileFileView::Object(m), name, Some(config), name), name) {
            ProfileFileView::Object(m3) => {
                &&& !m3.dom().contains(name)
                &&& meta_fields(m3).dom().contains("last_profile"@)
                &&& meta_fields(m3)["last_profile"@] == JsonLeafView::Str(seq![])
            },
            ProfileFileView::Other(_) => false,
        },
{
    law_save_records(m, name, config, name);
    match saved_file(ProfileFileView::Object(m), name, Some(config), name) {
        ProfileFileView::Object(m2) => {
            law_delete_removes(m2, name);
        },
        _ => {},
    }
}

} // verus!

//! Properties of how screenshots are named and which hashes are sent for
//! them.

use vstd::prelude::*;

use crate::external::path_file_stem;
use crate::string_map::pairs_map;
use crate::upload::{by_name, content_hash_spec, name_hashes, screenshot_name_spec};

verus! {

/// A name given for a screenshot is the name it is uploaded under, whether
/// or not the file stem was asked for.
pub proof fn law_given_name_wins(path: Seq<char>, name: Seq<char>, clean_name: bool)
    ensures
        screenshot_name_spec(path, Some(name), clean_name) == name,
{
}

/// Without a given name and without `--clean-name`, a screenshot is
/// uploaded under its path.
pub proof fn law_unnamed_screenshot_keeps_path(path: Seq<char>)
    ensures
        screenshot_name_spec(path, None, false) == path,
{
}

/// Without a given name, `--clean-name` names a screenshot by the file stem
/// of its path, and by the path where it has none.
pub proof fn law_clean_name_uses_stem(path: Seq<char>)
    ensures
        path_file_stem(path) is Some ==> screenshot_name_spec(path, None, true) == path_file_stem(
            path,
        )->0,
        path_file_stem(path) is None ==> screenshot_name_spec(path, None, true) == path,
{
}

/// The pairs sent for two lists of screenshots read one after the other
/// are those sent for the first list, then those sent for the second: the
/// hash sent for a screenshot depends on its own content only.
pub proof fn law_hashes_split(
    names1: Seq<Seq<char>>,
    contents1: Seq<Option<Seq<u8>>>,
    names2: Seq<Seq<char>>,
    contents2: Seq<Option<Seq<u8>>>,
)
    requires
        names1.len() == contents1.len(),
        names2.len() == contents2.len(),
    ensures
        name_hashes(names1 + names2, contents1 + contents2) == name_hashes(names1, contents1)
            + name_hashes(names2, contents2),
    decreases names2.len(),
{
    if names2.len() == 0 {
        assert(names1 + names2 =~= names1);
        assert(contents1 + contents2 =~= contents1);
        assert(name_hashes(names1, contents1) + name_hashes(names2, contents2) =~= name_hashes(
            names1,
            contents1,
        ));
    } else {
        law_hashes_split(names1, contents1, names2.drop_last(), contents2.drop_last());
        assert((names1 + names2).drop_last() =~= names1 + names2.drop_last());
        assert((contents1 + contents2).drop_last() =~= contents1 + contents2.drop_last());
        assert((names1 + names2).last() == names2.last());
        assert((contents1 + contents2).last() == contents2.last());
        assert(name_hashes(names1 + names2, contents1 + contents2) =~= name_hashes(
            names1,
            contents1,
        ) + name_hashes(names2, contents2));
    }
}

/// One screenshot whose content was read is sent with the hash of that
/// content; one whose content could not be read is not sent.
pub proof fn law_hash_of_one_screenshot(name: Seq<char>, content: Option<Seq<u8>>)
    ensures
        name_hashes(seq![name], seq![content]) == match content {
            Some(data) => seq![(name, content_hash_spec(data))],
            None => Seq::<(Seq<char>, Seq<char>)>::empty(),
        },
{
    assert(seq![name].drop_last() =~= Seq::<Seq<char>>::empty());
    assert(seq![content].drop_last() =~= Seq::<Option<Seq<u8>>>::empty());
    assert(name_hashes(Seq::<Seq<char>>::empty(), Seq::<Option<Seq<u8>>>::empty())
        == Seq::<(Seq<char>, Seq<char>)>::empty());
    assert(name_hashes(seq![name], seq![content]) =~= match content {
        Some(data) => seq![(name, content_hash_spec(data))],
        None => Seq::<(Seq<char>, Seq<char>)>::empty(),
    });
}

/// Among screenshots given under one name, the one given last is the one
/// whose path is kept for that name.
pub proof fn law_last_path_kept(entries: Seq<(String, String)>, i: int)
    requires
        0 <= i < entries.len(),
        forall|j: int| i < j < entries.len() ==> #[trigger] entries[j].1@ != entries[i].1@,
    ensures
        pairs_map(by_name(entries)).dom().contains(entries[i].1@),
        pairs_map(by_name(entries))[entries[i].1@] == entries[i].0@,
{
    let s = by_name(entries);
    assert forall|j: int| i < j < s.len() implies s[j].0 != s[i].0 by {
        assert(s[j] == (entries[j].1@, entries[j].0@));
        assert(s[i] == (entries[i].1@, entries[i].0@));
    }
    crate::laws::lemma_pairs_map_last(s, i);
}

} // verus!

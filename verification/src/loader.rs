//! The container loader: parsing a byte buffer as a single object file or as
//! an archive of objects, and appending every successfully parsed container
//! to an explicitly owned list of open containers. A buffer or member that
//! does not parse is skipped silently and never aborts the batch.

use vstd::prelude::*;

use crate::container::{
    build_container, built_container, raw_sec_views, rel_views,
};
use crate::model::{Container, ContainerModel, MemberModel, RelocTarget};
use crate::trusted::{
    lossy_string, lossy_utf8, opt_entries_view, parse_archive, parse_format,
    parse_relocations, parse_sections, parse_symbols, parsed_format, parsed_members,
    parsed_relocations, parsed_sections, parsed_symbols,
};

verus! {

/// The relocation records of one section, or nothing when the parser yields
/// none.
pub open spec fn reloc_or_empty(data: Seq<u8>, si: usize) -> Seq<(u64, RelocTarget)> {
    match parsed_relocations(data, si) {
        Some(v) => v,
        None => Seq::empty(),
    }
}

/// The container that parsing a buffer yields: `None` when the buffer is not
/// a valid object file, and otherwise the model built from the parsed
/// format, sections, relocations and symbols. A function of the bytes, the
/// display name and the path alone: re-parsing the same buffer yields the
/// same container.
pub open spec fn spec_parse_container(
    data: Seq<u8>,
    name: Seq<char>,
    path: Seq<char>,
) -> Option<ContainerModel> {
    match (parsed_format(data), parsed_sections(data), parsed_symbols(data)) {
        (Some(f), Some(rs), Some(ry)) => Some(
            built_container(
                f,
                rs,
                rs.map_values(|r: crate::model::RawSectionModel| reloc_or_empty(data, r.index)),
                ry,
                name,
                path,
            ),
        ),
        _ => None,
    }
}

/// Spec view of an optional container.
pub open spec fn opt_container_view(r: Option<Container>) -> Option<ContainerModel> {
    match r {
        Some(c) => Some(c@),
        None => None,
    }
}

/// Parses a buffer as one object file and builds its container model.
pub fn parse_container(data: &Vec<u8>, name: String, path: String) -> (r: Option<Container>)
    ensures
        opt_container_view(r) == spec_parse_container(data@, name@, path@),
        match r {
            Some(c) => c@.wf(),
            None => true,
        },
{
    let format = match parse_format(data) {
        Some(f) => f,
        None => {
            return None;
        },
    };
    let rsecs = match parse_sections(data) {
        Some(v) => v,
        None => {
            return None;
        },
    };
    let rsyms = match parse_symbols(data) {
        Some(v) => v,
        None => {
            return None;
        },
    };
    let ghost grsecs = raw_sec_views(rsecs@);
    let ghost gmap = grsecs.map_values(
        |r: crate::model::RawSectionModel| reloc_or_empty(data@, r.index),
    );
    let mut rels: Vec<Vec<(u64, RelocTarget)>> = Vec::new();
    let mut i: usize = 0;
    proof {
        assert(rel_views(rels@) =~= gmap.take(0));
    }
    while i < rsecs.len()
        invariant
            i <= rsecs@.len(),
            grsecs == raw_sec_views(rsecs@),
            gmap == grsecs.map_values(
                |r: crate::model::RawSectionModel| reloc_or_empty(data@, r.index),
            ),
            rel_views(rels@) == gmap.take(i as int),
        decreases rsecs@.len() - i,
    {
        let si = rsecs[i].index;
        proof {
            assert(grsecs[i as int] == rsecs@[i as int]@);
            assert(gmap[i as int] == reloc_or_empty(data@, grsecs[i as int].index));
        }
        let rl = match parse_relocations(data, si) {
            Some(v) => v,
            None => Vec::new(),
        };
        proof {
            assert(rl@ == gmap[i as int]);
        }
        let ghost old_rels = rels@;
        proof {
            assert(rel_views(old_rels).len() == old_rels.len());
            assert(old_rels.len() == i as int);
        }
        rels.push(rl);
        proof {
            assert(rels@.len() == i + 1);
            assert forall|j: int| 0 <= j < i + 1 implies rel_views(rels@)[j] == gmap.take(i + 1)[j] by {
                assert(rel_views(rels@)[j] == rels@[j]@);
                if j < i {
                    assert(rels@[j] == old_rels[j]);
                    assert(rel_views(old_rels)[j] == old_rels[j]@);
                    assert(rel_views(old_rels)[j] == gmap.take(i as int)[j]);
                }
            }
            assert(rel_views(rels@) =~= gmap.take(i + 1));
        }
        i = i + 1;
    }
    proof {
        assert(gmap.take(grsecs.len() as int) =~= gmap);
    }
    Some(build_container(format, rsecs, rels, rsyms, name, path))
}

/// The explicitly owned, append-only list of open containers.
pub struct ContainerList {
    pub containers: Vec<Container>,
}

impl View for ContainerList {
    type V = Seq<ContainerModel>;

    open spec fn view(&self) -> Seq<ContainerModel> {
        self.containers@.map_values(|c: Container| c@)
    }
}

/// What opening one buffer as an object does to the list: appends its
/// container when it parses, and leaves the list unchanged otherwise.
pub open spec fn spec_open_object(
    list: Seq<ContainerModel>,
    data: Seq<u8>,
    name: Seq<char>,
    path: Seq<char>,
) -> Seq<ContainerModel> {
    match spec_parse_container(data, name, path) {
        Some(c) => list.push(c),
        None => list,
    }
}

/// What opening the members of an archive does to the list, member by member
/// in archive order: an unreadable member, or one that is not a valid
/// object, contributes nothing.
pub open spec fn spec_open_members(
    list: Seq<ContainerModel>,
    members: Seq<Option<MemberModel>>,
    path: Seq<char>,
) -> Seq<ContainerModel>
    decreases members.len(),
{
    if members.len() == 0 {
        list
    } else {
        let next = match members[0] {
            Some(m) => match m.data {
                Some(d) => spec_open_object(list, d, lossy_utf8(m.name), path),
                None => list,
            },
            None => list,
        };
        spec_open_members(next, members.drop_first(), path)
    }
}

/// What opening a whole buffer does to the list: every readable archive
/// member that parses as an object, in archive order, and then the buffer
/// itself when it parses as a top-level object.
pub open spec fn spec_open_buffer(
    list: Seq<ContainerModel>,
    data: Seq<u8>,
    name: Seq<char>,
    path: Seq<char>,
) -> Seq<ContainerModel> {
    let members = match parsed_members(data) {
        Some(ms) => ms,
        None => Seq::empty(),
    };
    spec_open_object(spec_open_members(list, members, path), data, name, path)
}

impl ContainerList {
    /// An empty list of open containers.
    pub fn new() -> (r: ContainerList)
        ensures
            r@ == Seq::<ContainerModel>::empty(),
    {
        let r = ContainerList { containers: Vec::new() };
        proof {
            assert(r@ =~= Seq::<ContainerModel>::empty());
        }
        r
    }

    /// Attempts to parse one buffer as an object file; on success the new
    /// container is appended, on failure the list is left unchanged.
    /// Returns whether a container was added.
    pub fn open_object(&mut self, data: &Vec<u8>, name: String, path: String) -> (added: bool)
        ensures
            final(self)@ == spec_open_object(old(self)@, data@, name@, path@),
            added == (spec_parse_container(data@, name@, path@) is Some),
            forall|j: int|
                old(self)@.len() <= j < final(self)@.len() ==> (#[trigger] final(self)@[j]).wf(),
    {
        match parse_container(data, name, path) {
            Some(c) => {
                self.containers.push(c);
                proof {
                    assert(self@ =~= old(self)@.push(
                        spec_parse_container(data@, name@, path@)->Some_0,
                    ));
                }
                true
            },
            None => false,
        }
    }

    /// Opens a buffer: first as an archive, attempting each readable member
    /// as an object independently (a corrupt member is skipped, never an
    /// error), and then as a top-level object. Every successfully parsed
    /// container is appended, in that order.
    pub fn open_buffer(&mut self, data: &Vec<u8>, name: String, path: String)
        ensures
            final(self)@ == spec_open_buffer(old(self)@, data@, name@, path@),
            old(self)@.len() <= final(self)@.len(),
            forall|j: int| 0 <= j < old(self)@.len() ==> final(self)@[j] == old(self)@[j],
            forall|j: int|
                old(self)@.len() <= j < final(self)@.len() ==> (#[trigger] final(self)@[j]).wf(),
    {
        let ghost gmembers = match parsed_members(data@) {
            Some(ms) => ms,
            None => Seq::<Option<MemberModel>>::empty(),
        };
        match parse_archive(data) {
            Some(mut members) => {
                proof {
                    assert(opt_entries_view(Some(members)) == parsed_members(data@));
                    assert(members@.map_values(
                        |t: Option<crate::model::RawMember>|
                            match t {
                                Some(m) => Some(m@),
                                None => None,
                            },
                    ) == gmembers);
                }
                loop
                    invariant
                        spec_open_members(old(self)@, gmembers, path@) == spec_open_members(
                            self@,
                            members@.map_values(
                                |t: Option<crate::model::RawMember>|
                                    match t {
                                        Some(m) => Some(m@),
                                        None => None,
                                    },
                            ),
                            path@,
                        ),
                        old(self)@.len() <= self@.len(),
                        forall|j: int| 0 <= j < old(self)@.len() ==> self@[j] == old(self)@[j],
                        forall|j: int|
                            old(self)@.len() <= j < self@.len() ==> (#[trigger] self@[j]).wf(),
                    ensures
                        self@ == spec_open_members(old(self)@, gmembers, path@),
                        old(self)@.len() <= self@.len(),
                        forall|j: int| 0 <= j < old(self)@.len() ==> self@[j] == old(self)@[j],
                        forall|j: int|
                            old(self)@.len() <= j < self@.len() ==> (#[trigger] self@[j]).wf(),
                    decreases members@.len(),
                {
                    let ghost gms = members@.map_values(
                        |t: Option<crate::model::RawMember>|
                            match t {
                                Some(m) => Some(m@),
                                None => None,
                            },
                    );
                    if members.len() == 0 {
                        proof {
                            assert(gms.len() == 0);
                        }
                        break;
                    }
                    let ghost before_list = self@;
                    let entry = members.remove(0);
                    proof {
                        assert(members@.map_values(
                            |t: Option<crate::model::RawMember>|
                                match t {
                                    Some(m) => Some(m@),
                                    None => None,
                                },
                        ) =~= gms.drop_first());
                        assert(gms[0] == (match entry {
                            Some(m) => Some(m@),
                            None => None,
                        }));
                    }
                    match entry {
                        Some(m) => {
                            match m.data {
                                Some(db) => {
                                    let member_name = lossy_string(m.name.as_slice());
                                    self.open_object(&db, member_name, clone_string(&path));
                                    proof {
                                        assert(self@ == spec_open_object(
                                            before_list,
                                            db@,
                                            lossy_utf8(m.name@),
                                            path@,
                                        ));
                                    }
                                },
                                None => {},
                            }
                        },
                        None => {},
                    }
                }
            },
            None => {
                proof {
                    assert(gmembers.len() == 0);
                }
            },
        }
        self.open_object(data, name, path);
    }
}

/// Clones a path string for reuse across archive members.
pub(crate) fn clone_string(s: &String) -> (r: String)
    ensures
        r@ == s@,
{
    s.clone()
}

} // verus!

use vstd::prelude::*;
use crate::diff::{models_of, append_clones};
use crate::package::{Package, PackageModel};
use crate::text::str_eq;

verus! {

/// Mathematical model of one declaration section of a group.
pub struct SectionModel {
    pub name: Seq<char>,
    pub packages: Seq<PackageModel>,
}

/// One declaration section of a group: the packages declared for the backend
/// whose section name matches.
pub struct Section {
    pub name: String,
    pub packages: Vec<Package>,
}

impl View for Section {
    type V = SectionModel;

    open spec fn view(&self) -> SectionModel {
        SectionModel { name: self.name@, packages: models_of(self.packages@) }
    }
}

/// Mathematical model of a group.
pub struct GroupModel {
    pub name: Seq<char>,
    pub sections: Seq<SectionModel>,
}

/// A named, user-declared bundle of packages, partitioned per backend section.
/// Constructed once per run from on-disk declarations; the core never mutates
/// a group.
pub struct Group {
    pub name: String,
    pub sections: Vec<Section>,
}

impl View for Group {
    type V = GroupModel;

    open spec fn view(&self) -> GroupModel {
        GroupModel {
            name: self.name@,
            sections: self.sections@.map_values(|s: Section| s@),
        }
    }
}

pub open spec fn group_models(gs: Seq<Group>) -> Seq<GroupModel> {
    gs.map_values(|g: Group| g@)
}

/// All packages declared under the named section in these sections, in order.
pub open spec fn declared_in_sections(ss: Seq<SectionModel>, section: Seq<char>) -> Seq<
    PackageModel,
>
    decreases ss.len(),
{
    if ss.len() == 0 {
        Seq::empty()
    } else {
        declared_in_sections(ss.drop_last(), section) + (if ss.last().name == section {
            ss.last().packages
        } else {
            Seq::empty()
        })
    }
}

/// All packages declared under the named section across these groups, in
/// group order.
pub open spec fn declared_in_groups(gs: Seq<GroupModel>, section: Seq<char>) -> Seq<PackageModel>
    decreases gs.len(),
{
    if gs.len() == 0 {
        Seq::empty()
    } else {
        declared_in_groups(gs.drop_last(), section) + declared_in_sections(
            gs.last().sections,
            section,
        )
    }
}

/// Append a copy of every package this group declares under the named section.
fn section_packages_into(out: &mut Vec<Package>, g: &Group, section: &str)
    ensures
        models_of(final(out)@) == models_of(old(out)@) + declared_in_sections(
            g@.sections,
            section@,
        ),
{
    proof {
        assert(models_of(out@) =~= models_of(out@) + declared_in_sections(
            g@.sections.take(0),
            section@,
        ));
    }
    let mut j: usize = 0;
    while j < g.sections.len()
        invariant
            0 <= j <= g.sections@.len(),
            g@.sections.len() == g.sections@.len(),
            models_of(out@) == models_of(old(out)@) + declared_in_sections(
                g@.sections.take(j as int),
                section@,
            ),
        decreases g.sections@.len() - j,
    {
        let sec = &g.sections[j];
        proof {
            assert(g@.sections[j as int] == sec@);
            assert(g@.sections.take(j as int + 1).drop_last() =~= g@.sections.take(j as int));
            assert(g@.sections.take(j as int + 1).last() == sec@);
        }
        if str_eq(sec.name.as_str(), section) {
            append_clones(out, &sec.packages);
        }
        proof {
            assert(models_of(out@) =~= models_of(old(out)@) + declared_in_sections(
                g@.sections.take(j as int + 1),
                section@,
            ));
        }
        j += 1;
    }
    proof {
        assert(g@.sections.take(g.sections@.len() as int) =~= g@.sections);
    }
}

/// All packages declared under the named section across all groups: the
/// working declared-set a backend loads before any diff.
pub fn packages_for_section(groups: &Vec<Group>, section: &str) -> (r: Vec<Package>)
    ensures
        models_of(r@) == declared_in_groups(group_models(groups@), section@),
{
    let mut r: Vec<Package> = Vec::new();
    proof {
        assert(models_of(r@) =~= declared_in_groups(group_models(groups@).take(0), section@));
    }
    let mut i: usize = 0;
    while i < groups.len()
        invariant
            0 <= i <= groups@.len(),
            models_of(r@) == declared_in_groups(group_models(groups@).take(i as int), section@),
        decreases groups@.len() - i,
    {
        let g = &groups[i];
        proof {
            assert(group_models(groups@)[i as int] == g@);
            assert(group_models(groups@).take(i as int + 1).drop_last() =~= group_models(
                groups@,
            ).take(i as int));
            assert(group_models(groups@).take(i as int + 1).last() == g@);
        }
        section_packages_into(&mut r, g, section);
        proof {
            assert(models_of(r@) =~= declared_in_groups(
                group_models(groups@).take(i as int + 1),
                section@,
            ));
        }
        i += 1;
    }
    proof {
        assert(group_models(groups@).take(groups@.len() as int) =~= group_models(groups@));
    }
    r
}

/// The position of the first group with the given name, if any.
pub fn find_group(groups: &Vec<Group>, name: &str) -> (r: Option<usize>)
    ensures
        (match r {
            Option::Some(i) => i < groups@.len() && group_models(groups@)[i as int].name == name@
                && forall|k: int| 0 <= k < i ==> group_models(groups@)[k].name != name@,
            Option::None => forall|k: int|
                0 <= k < groups@.len() ==> group_models(groups@)[k].name != name@,
        }),
{
    let mut i: usize = 0;
    while i < groups.len()
        invariant
            0 <= i <= groups@.len(),
            forall|k: int| 0 <= k < i ==> group_models(groups@)[k].name != name@,
        decreases groups@.len() - i,
    {
        let g = &groups[i];
        if str_eq(g.name.as_str(), name) {
            proof {
                assert(group_models(groups@)[i as int] == g@);
            }
            return Option::Some(i);
        }
        proof {
            assert(group_models(groups@)[i as int] == g@);
        }
        i += 1;
    }
    Option::None
}

} // verus!

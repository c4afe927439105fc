//! The launcher instances that can be exported, as listed in its groups file.

use vstd::prelude::*;
use vstd::string::*;
use std::path::PathBuf;

verus! {

/// `std::path::PathBuf`, carried through as an opaque value.
#[verifier::external_type_specification]
#[verifier::external_body]
pub struct ExPathBuf(PathBuf);

/// What an instance holds, as plain mathematical values.
pub struct InstanceModel {
    pub folder_name: Seq<char>,
    pub group: Seq<char>,
    pub icon_path: Option<PathBuf>,
    pub checked: bool,
}

/// One launcher instance: its folder, the group it is filed under, its icon
/// if one is known, and whether the user ticked it for export.
#[derive(Debug)]
pub struct Instance {
    pub folder_name: String,
    pub group: String,
    pub icon_path: Option<PathBuf>,
    pub checked: bool,
}

impl View for Instance {
    type V = InstanceModel;

    open spec fn view(&self) -> InstanceModel {
        InstanceModel {
            folder_name: self.folder_name@,
            group: self.group@,
            icon_path: self.icon_path,
            checked: self.checked,
        }
    }
}

impl DeepView for Instance {
    type V = InstanceModel;

    open spec fn deep_view(&self) -> InstanceModel {
        self@
    }
}

impl Default for Instance {
    fn default() -> (instance: Self)
        ensures
            instance@ == (InstanceModel {
                folder_name: Seq::empty(),
                group: Seq::empty(),
                icon_path: None,
                checked: false,
            }),
    {
        Self { folder_name: String::new(), group: String::new(), icon_path: None, checked: false }
    }
}

/// What a group of the groups file holds, as plain mathematical values.
pub struct GroupModel {
    pub name: Seq<char>,
    pub hidden: bool,
    pub instances: Seq<Seq<char>>,
}

/// One group of the launcher's groups file: its name, whether the launcher
/// hides it, and the folders of its instances.
#[derive(Debug)]
pub struct InstanceGroup {
    pub name: String,
    pub hidden: bool,
    pub instances: Vec<String>,
}

impl Clone for InstanceGroup {
    fn clone(&self) -> (copy: Self)
        ensures
            copy@ == self@,
    {
        let instances = self.instances.clone();
        assert(instances.deep_view() =~= self.instances.deep_view());
        InstanceGroup { name: self.name.clone(), hidden: self.hidden, instances }
    }
}

impl View for InstanceGroup {
    type V = GroupModel;

    open spec fn view(&self) -> GroupModel {
        GroupModel { name: self.name@, hidden: self.hidden, instances: self.instances.deep_view() }
    }
}

impl DeepView for InstanceGroup {
    type V = GroupModel;

    open spec fn deep_view(&self) -> GroupModel {
        self@
    }
}

/// The instance found in `folder` of the group called `group`: not ticked, no icon.
pub open spec fn found_instance(folder: Seq<char>, group: Seq<char>) -> InstanceModel {
    InstanceModel { folder_name: folder, group, icon_path: None, checked: false }
}

/// The instances of one group, in the group's own order.
pub open spec fn group_instances(g: GroupModel) -> Seq<InstanceModel> {
    Seq::new(g.instances.len(), |i: int| found_instance(g.instances[i], g.name))
}

/// The instances of all groups, group after group; hidden groups are left
/// out unless `include_hidden` is set.
pub open spec fn listed_instances(groups: Seq<GroupModel>, include_hidden: bool) -> Seq<
    InstanceModel,
>
    decreases groups.len(),
{
    if groups.len() == 0 {
        Seq::empty()
    } else {
        let earlier = listed_instances(groups.drop_last(), include_hidden);
        if !include_hidden && groups.last().hidden {
            earlier
        } else {
            earlier + group_instances(groups.last())
        }
    }
}

/// Lists the instances of the groups read from the launcher's groups file.
pub fn get_instances_from_path(groups: &Vec<InstanceGroup>, include_hidden: bool) -> (instances:
    Vec<Instance>)
    ensures
        instances.deep_view() == listed_instances(groups.deep_view(), include_hidden),
{
    let mut instances: Vec<Instance> = Vec::new();
    let mut g: usize = 0;
    assert(groups.deep_view().take(0) =~= Seq::<GroupModel>::empty());
    assert(instances.deep_view() =~= Seq::<InstanceModel>::empty());
    while g < groups.len()
        invariant
            g <= groups.len(),
            instances.deep_view() == listed_instances(
                groups.deep_view().take(g as int),
                include_hidden,
            ),
        decreases groups.len() - g,
    {
        let group = &groups[g];
        let ghost before = instances.deep_view();
        proof {
            let upto = groups.deep_view().take(g + 1);
            assert(upto.drop_last() =~= groups.deep_view().take(g as int));
            assert(upto.last() == group@);
        }
        if include_hidden || !group.hidden {
            let mut f: usize = 0;
            while f < group.instances.len()
                invariant
                    f <= group.instances.len(),
                    instances.deep_view() == before + group_instances(group@).take(f as int),
                decreases group.instances.len() - f,
            {
                let ghost so_far = instances.deep_view();
                instances.push(
                    Instance {
                        folder_name: group.instances[f].clone(),
                        group: group.name.clone(),
                        icon_path: None,
                        checked: false,
                    },
                );
                proof {
                    let next = found_instance(group.instances[f as int]@, group.name@);
                    assert(instances.deep_view() =~= so_far.push(next));
                    assert(group_instances(group@).take(f + 1) =~= group_instances(group@).take(
                        f as int,
                    ).push(next));
                    assert(instances.deep_view() =~= before + group_instances(group@).take(f + 1));
                }
                f += 1;
            }
            assert(group_instances(group@).take(f as int) =~= group_instances(group@));
        }
        g += 1;
    }
    assert(groups.deep_view().take(g as int) =~= groups.deep_view());
    instances
}

} // verus!

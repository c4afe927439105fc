//! What the application knows: the settings, the instances found, and the log
//! that the user reads.

use vstd::prelude::*;
use vstd::string::*;
use crate::instances::{get_instances_from_path, listed_instances, Instance, InstanceGroup, InstanceModel};
use crate::reconcile::{rewritten, write_steam_shortcuts};
use crate::settings::{Config, ConfigModel};
use crate::shortcut::{DesiredModel, DesiredShortcut};

verus! {

/// What the application knows, as plain mathematical values.
pub struct AppView {
    pub config: ConfigModel,
    pub instances: Seq<InstanceModel>,
    pub log_printout: Seq<char>,
}

/// The settings, the instances that were found, and the lines logged so far.
pub struct AppModel {
    pub config: Config,
    pub instances: Vec<Instance>,
    pub log_printout: String,
}

impl View for AppModel {
    type V = AppView;

    open spec fn view(&self) -> AppView {
        AppView {
            config: self.config@,
            instances: self.instances.deep_view(),
            log_printout: self.log_printout@,
        }
    }
}

/// The shortcut that exports the instance in `folder_name`: the launcher's
/// executable under `prism_main_path`, told to launch that instance.
pub open spec fn desired_for(prism_main_path: Seq<char>, folder_name: Seq<char>) -> DesiredModel {
    DesiredModel {
        app_name: folder_name,
        exe: prism_main_path + "\\"@ + "prismlauncher.exe"@,
        start_dir: prism_main_path,
        icon: Seq::empty(),
        launch_options: "-l \""@ + folder_name + "\""@,
        tags: seq!["Installed"@, "Ready to play"@],
        shortcut_path: Seq::empty(),
    }
}

/// The shortcuts of the instances that are ticked, in the instances' order.
pub open spec fn desired_of_checked(prism_main_path: Seq<char>, instances: Seq<InstanceModel>) -> Seq<
    DesiredModel,
>
    decreases instances.len(),
{
    if instances.len() == 0 {
        Seq::empty()
    } else {
        let earlier = desired_of_checked(prism_main_path, instances.drop_last());
        if instances.last().checked {
            earlier.push(desired_for(prism_main_path, instances.last().folder_name))
        } else {
            earlier
        }
    }
}

/// The line that is logged for a failure: a line break, what failed, and the
/// failure's own text.
pub open spec fn failure_line(what: Seq<char>, detail: Seq<char>) -> Seq<char> {
    "\n"@ + what + detail
}

/// The shortcut that exports one instance.
fn desired_shortcut(prism_main_path: &str, folder_name: &str) -> (desired: DesiredShortcut)
    ensures
        desired@ == desired_for(prism_main_path@, folder_name@),
{
    let mut exe = String::from_str(prism_main_path);
    exe.append("\\");
    exe.append("prismlauncher.exe");
    let mut launch_options = String::from_str("-l \"");
    launch_options.append(folder_name);
    launch_options.append("\"");
    let mut tags: Vec<String> = Vec::new();
    tags.push(String::from_str("Installed"));
    tags.push(String::from_str("Ready to play"));
    assert(tags.deep_view() =~= seq!["Installed"@, "Ready to play"@]);
    DesiredShortcut {
        app_name: String::from_str(folder_name),
        exe,
        start_dir: String::from_str(prism_main_path),
        icon: String::new(),
        launch_options,
        tags,
        shortcut_path: String::new(),
    }
}

impl Default for AppModel {
    /// Nothing found, nothing logged, the settings of a first start.
    fn default() -> (model: Self)
        ensures
            model@ == (AppView {
                config: ConfigModel::first_start(Seq::empty(), Seq::empty()),
                instances: Seq::empty(),
                log_printout: Seq::empty(),
            }),
    {
        let model = AppModel {
            config: Config::default(),
            instances: Vec::new(),
            log_printout: String::new(),
        };
        assert(model.instances.deep_view() =~= Seq::<InstanceModel>::empty());
        model
    }
}

impl AppModel {
    /// Logs a failure on a line of its own.
    pub fn log_failure(&mut self, what: &str, detail: &str)
        ensures
            final(self).config == old(self).config,
            final(self).instances == old(self).instances,
            final(self).log_printout@ == old(self).log_printout@ + failure_line(what@, detail@),
    {
        self.log_printout.append("\n");
        self.log_printout.append(what);
        self.log_printout.append(detail);
        assert(self.log_printout@ =~= old(self).log_printout@ + failure_line(what@, detail@));
    }

    /// Takes over the instances of the groups file as it was read, or logs
    /// why it could not be read.
    pub fn update_instances(&mut self, loaded: Result<Vec<InstanceGroup>, String>)
        ensures
            final(self).config == old(self).config,
            match loaded {
                Ok(groups) => {
                    &&& final(self).instances.deep_view() == listed_instances(
                        groups.deep_view(),
                        old(self).config.include_hidden,
                    )
                    &&& final(self).log_printout == old(self).log_printout
                },
                Err(report) => {
                    &&& final(self).instances == old(self).instances
                    &&& final(self).log_printout@ == old(self).log_printout@ + failure_line(
                        "ERROR: Couldn't Update unstances! "@,
                        report@,
                    )
                },
            },
    {
        match loaded {
            Ok(groups) => {
                self.instances = get_instances_from_path(&groups, self.config.include_hidden);
            },
            Err(report) => {
                self.log_failure("ERROR: Couldn't Update unstances! ", report.as_str());
            },
        }
    }

    /// The shortcuts of the instances that are ticked.
    pub fn desired_shortcuts(&self) -> (desired: Vec<DesiredShortcut>)
        ensures
            desired.deep_view() == desired_of_checked(
                self.config.prism_main_path@,
                self.instances.deep_view(),
            ),
    {
        let mut desired: Vec<DesiredShortcut> = Vec::new();
        let ghost found = self.instances.deep_view();
        let ghost path = self.config.prism_main_path@;
        assert(found.take(0) =~= Seq::<InstanceModel>::empty());
        assert(desired.deep_view() =~= Seq::<DesiredModel>::empty());
        for i in 0..self.instances.len()
            invariant
                found == self.instances.deep_view(),
                path == self.config.prism_main_path@,
                desired.deep_view() == desired_of_checked(path, found.take(i as int)),
        {
            let instance = &self.instances[i];
            let ghost before = desired.deep_view();
            proof {
                let upto = found.take(i + 1);
                assert(upto.drop_last() =~= found.take(i as int));
                assert(upto.last() == instance@);
            }
            if instance.checked {
                let shortcut = desired_shortcut(
                    self.config.prism_main_path.as_str(),
                    instance.folder_name.as_str(),
                );
                desired.push(shortcut);
                assert(desired.deep_view() =~= before.push(
                    desired_for(path, instance.folder_name@),
                ));
            }
        }
        assert(found.take(found.len() as int) =~= found);
        desired
    }

    /// Rewrites the shortcut catalog for the instances that are ticked.
    ///
    /// `existing` is what the catalog file holds, or no bytes where there is
    /// no file. Returns what the file is to hold, or logs why nothing is to
    /// be written.
    pub fn update_steam_shortcuts(&mut self, existing: &[u8]) -> (written: Option<Vec<u8>>)
        ensures
            final(self).config == old(self).config,
            final(self).instances == old(self).instances,
            match rewritten(
                existing@,
                desired_of_checked(
                    old(self).config.prism_main_path@,
                    old(self).instances.deep_view(),
                ),
            ) {
                Some(bytes) => {
                    &&& written matches Some(out)
                    &&& out@ == bytes
                    &&& final(self).log_printout == old(self).log_printout
                },
                None => {
                    &&& written is None
                    &&& (old(self).log_printout@ + "\n"@
                        + "ERROR: Couldn't update instances! parse: "@).is_prefix_of(
                        final(self).log_printout@,
                    )
                },
            },
    {
        let desired = self.desired_shortcuts();
        match write_steam_shortcuts(existing, desired) {
            Ok(bytes) => Some(bytes),
            Err(e) => {
                let report = e.message();
                self.log_failure("ERROR: Couldn't update instances! parse: ", report.as_str());
                None
            },
        }
    }
}

} // verus!

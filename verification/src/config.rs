//! The data model: steps, scripts, shells, package managers and sources,
//! and inherited document defaults.
//!
//! Everything here is a plain value parsed out of the provisioning document;
//! the per-variant command tables (how a manager installs or queries a
//! package, how a shell runs a script) are closed and known at compile time.

use vstd::prelude::*;
use crate::expr::{Expr, ExprV};

verus! {

/// A shell that can run or syntax-check scripts.
#[derive(Debug, Clone, Copy, PartialEq, Eq, Structural)]
pub enum Shell {
    Bash,
    PowerShellCore,
}

/// The binary a shell is invoked through.
pub open spec fn spec_shell_command(s: Shell) -> Seq<char> {
    match s {
        Shell::Bash => "bash"@,
        Shell::PowerShellCore => "pwsh"@,
    }
}

impl Shell {
    /// The shell's binary name.
    pub fn get_command(&self) -> (r: &'static str)
        ensures
            r@ == spec_shell_command(*self),
    {
        match self {
            Shell::Bash => "bash",
            Shell::PowerShellCore => "pwsh",
        }
    }

    /// Every shell the tool knows about, as a specification value.
    pub open spec fn all_spec() -> Seq<Shell> {
        seq![Shell::Bash, Shell::PowerShellCore]
    }

    /// Every shell the tool knows about.
    pub fn all() -> (r: Vec<Shell>)
        ensures
            r@ == Shell::all_spec(),
    {
        let mut v: Vec<Shell> = Vec::new();
        v.push(Shell::Bash);
        v.push(Shell::PowerShellCore);
        assert(v@ =~= seq![Shell::Bash, Shell::PowerShellCore]);
        v
    }
}

impl Default for Shell {
    /// A script without an explicit shell runs under bash.
    fn default() -> (r: Self)
        ensures
            r == Shell::Bash,
    {
        Shell::Bash
    }
}

/// An abstract package repository that several managers can serve.
#[derive(Debug, Clone, Copy, PartialEq, Eq, Structural)]
pub enum Repository {
    Aur,
}

/// A concrete package manager.
#[derive(Debug, Clone, Copy, PartialEq, Eq, Structural)]
pub enum PackageManager {
    Apt,
    Dnf,
    Pacman,
    Zypper,
    Yay,
    Paru,
    Flatpak,
    Brew,
    Scoop,
    Choco,
    Winget,
    Cargo,
    Npm,
}

/// Where a step's packages come from: a repository or one fixed manager.
#[derive(Debug, Clone, Copy, PartialEq, Eq, Structural)]
pub enum PackageSource {
    Repository(Repository),
    Manager(PackageManager),
}

/// The ordered candidate managers of a repository.
pub open spec fn spec_repository_managers(r: Repository) -> Seq<PackageManager> {
    match r {
        Repository::Aur => seq![PackageManager::Yay, PackageManager::Paru],
    }
}

/// The ordered candidate managers of a package source.
pub open spec fn spec_source_managers(s: PackageSource) -> Seq<PackageManager> {
    match s {
        PackageSource::Repository(r) => spec_repository_managers(r),
        PackageSource::Manager(m) => seq![m],
    }
}

impl Repository {
    /// The managers that can install from this repository, preferred first.
    pub fn get_package_managers(&self) -> (r: Vec<PackageManager>)
        ensures
            r@ == spec_repository_managers(*self),
    {
        match self {
            Repository::Aur => {
                let mut v: Vec<PackageManager> = Vec::new();
                v.push(PackageManager::Yay);
                v.push(PackageManager::Paru);
                assert(v@ =~= spec_repository_managers(Repository::Aur));
                v
            },
        }
    }
}

impl PackageSource {
    /// The candidate managers of this source, preferred first; never empty.
    pub fn get_package_managers(&self) -> (r: Vec<PackageManager>)
        ensures
            r@ == spec_source_managers(*self),
            r@.len() >= 1,
    {
        match self {
            PackageSource::Repository(repo) => repo.get_package_managers(),
            PackageSource::Manager(m) => {
                let mut v: Vec<PackageManager> = Vec::new();
                v.push(*m);
                assert(v@ =~= seq![*m]);
                v
            },
        }
    }
}

/// The binary a manager is invoked through (also probed on the PATH).
pub open spec fn spec_manager_command(m: PackageManager) -> Seq<char> {
    match m {
        PackageManager::Pacman => "pacman"@,
        PackageManager::Apt => "apt-get"@,
        PackageManager::Dnf => "dnf"@,
        PackageManager::Zypper => "zypper"@,
        PackageManager::Brew => "brew"@,
        PackageManager::Winget => "winget"@,
        PackageManager::Yay => "yay"@,
        PackageManager::Paru => "paru"@,
        PackageManager::Flatpak => "flatpak"@,
        PackageManager::Scoop => "scoop"@,
        PackageManager::Choco => "choco"@,
        PackageManager::Cargo => "cargo"@,
        PackageManager::Npm => "npm"@,
    }
}

/// One subprocess invocation: a binary and its arguments.
#[derive(Debug)]
pub struct CommandSpec {
    pub bin: String,
    pub args: Vec<String>,
}

/// Mathematical image of a `CommandSpec`.
#[verifier::ext_equal]
pub struct CommandSpecV {
    pub bin: Seq<char>,
    pub args: Seq<Seq<char>>,
}

impl View for CommandSpec {
    type V = CommandSpecV;

    open spec fn view(&self) -> CommandSpecV {
        CommandSpecV { bin: self.bin@, args: self.args.deep_view() }
    }
}

impl DeepView for CommandSpec {
    type V = CommandSpecV;

    open spec fn deep_view(&self) -> CommandSpecV {
        self@
    }
}

/// The fixed argument prefix of a manager's one-shot install command
/// (managers that install package lists in a single invocation).
pub open spec fn spec_install_prefix(m: PackageManager) -> CommandSpecV {
    match m {
        PackageManager::Apt => CommandSpecV {
            bin: "sudo"@,
            args: seq!["apt-get"@, "install"@, "-y"@],
        },
        PackageManager::Dnf => CommandSpecV { bin: "sudo"@, args: seq!["dnf"@, "install"@, "-y"@] },
        PackageManager::Pacman => CommandSpecV {
            bin: "sudo"@,
            args: seq!["pacman"@, "-S"@, "--noconfirm"@, "--needed"@],
        },
        PackageManager::Yay => CommandSpecV {
            bin: "yay"@,
            args: seq!["-S"@, "--noconfirm"@, "--needed"@],
        },
        PackageManager::Paru => CommandSpecV {
            bin: "paru"@,
            args: seq!["-S"@, "--noconfirm"@, "--needed"@],
        },
        PackageManager::Zypper => CommandSpecV {
            bin: "sudo"@,
            args: seq!["zypper"@, "install"@, "-y"@],
        },
        PackageManager::Brew => CommandSpecV { bin: "brew"@, args: seq!["install"@] },
        PackageManager::Scoop => CommandSpecV { bin: "scoop.cmd"@, args: seq!["install"@] },
        PackageManager::Choco => CommandSpecV { bin: "choco"@, args: seq!["install"@, "-y"@] },
        PackageManager::Cargo => CommandSpecV { bin: "cargo"@, args: seq!["install"@] },
        PackageManager::Npm => CommandSpecV { bin: "npm"@, args: seq!["i"@, "-g"@] },
        // per-package managers; unused for them
        PackageManager::Flatpak => CommandSpecV { bin: "flatpak"@, args: Seq::empty() },
        PackageManager::Winget => CommandSpecV { bin: "winget"@, args: Seq::empty() },
    }
}

/// The commands that install `pkgs` with manager `m`: flatpak and winget
/// take one command per package, every other manager one command for all.
pub open spec fn spec_install_commands(m: PackageManager, pkgs: Seq<Seq<char>>) -> Seq<
    CommandSpecV,
> {
    match m {
        PackageManager::Flatpak => pkgs.map_values(
            |p: Seq<char>|
                CommandSpecV { bin: "flatpak"@, args: seq!["install"@, "-y"@, "flathub"@, p] },
        ),
        PackageManager::Winget => pkgs.map_values(
            |p: Seq<char>|
                CommandSpecV { bin: "winget"@, args: seq!["install"@, "-e"@, "--id"@, p] },
        ),
        _ => seq![
            CommandSpecV {
                bin: spec_install_prefix(m).bin,
                args: spec_install_prefix(m).args + pkgs,
            },
        ],
    }
}

/// The query that asks manager `m` whether `pkg` is installed.
pub open spec fn spec_check_command(m: PackageManager, pkg: Seq<char>) -> CommandSpecV {
    match m {
        PackageManager::Pacman | PackageManager::Yay | PackageManager::Paru => CommandSpecV {
            bin: "pacman"@,
            args: seq!["-Q"@, pkg],
        },
        PackageManager::Apt => CommandSpecV { bin: "dpkg"@, args: seq!["-l"@, pkg] },
        PackageManager::Dnf | PackageManager::Zypper => CommandSpecV {
            bin: "rpm"@,
            args: seq!["-q"@, pkg],
        },
        PackageManager::Flatpak => CommandSpecV { bin: "flatpak"@, args: seq!["info"@, pkg] },
        PackageManager::Brew => CommandSpecV {
            bin: "brew"@,
            args: seq!["list"@, "--versions"@, pkg],
        },
        PackageManager::Winget => CommandSpecV { bin: "winget"@, args: seq!["list"@, "--id"@, pkg] },
        PackageManager::Scoop => CommandSpecV { bin: "scoop.cmd"@, args: seq!["list"@, pkg] },
        PackageManager::Choco => CommandSpecV {
            bin: "choco"@,
            args: seq!["list"@, "--local-only"@, pkg],
        },
        PackageManager::Cargo => CommandSpecV { bin: "cargo"@, args: seq!["install"@, "--list"@] },
        PackageManager::Npm => CommandSpecV {
            bin: "npm"@,
            args: seq!["list"@, "--depth=0"@, "-g"@, pkg],
        },
    }
}

impl PackageManager {
    /// The manager's binary name.
    pub fn command(&self) -> (r: &'static str)
        ensures
            r@ == spec_manager_command(*self),
    {
        match self {
            PackageManager::Pacman => "pacman",
            PackageManager::Apt => "apt-get",
            PackageManager::Dnf => "dnf",
            PackageManager::Zypper => "zypper",
            PackageManager::Brew => "brew",
            PackageManager::Winget => "winget",
            PackageManager::Yay => "yay",
            PackageManager::Paru => "paru",
            PackageManager::Flatpak => "flatpak",
            PackageManager::Scoop => "scoop",
            PackageManager::Choco => "choco",
            PackageManager::Cargo => "cargo",
            PackageManager::Npm => "npm",
        }
    }

    /// The subprocess invocations that install `pkgs` with this manager.
    pub fn commands_to_install(&self, pkgs: &Vec<String>) -> (r: Vec<CommandSpec>)
        ensures
            r.deep_view() == spec_install_commands(*self, pkgs.deep_view()),
    {
        match self {
            PackageManager::Flatpak => {
                let mut out: Vec<CommandSpec> = Vec::new();
                let mut i: usize = 0;
                while i < pkgs.len()
                    invariant
                        i <= pkgs.len(),
                        out.deep_view() =~= spec_install_commands(
                            PackageManager::Flatpak,
                            pkgs.deep_view().take(i as int),
                        ),
                    decreases pkgs.len() - i,
                {
                    let mut args: Vec<String> = Vec::new();
                    args.push("install".to_owned());
                    args.push("-y".to_owned());
                    args.push("flathub".to_owned());
                    args.push(pkgs[i].clone());
                    let cmd = CommandSpec { bin: "flatpak".to_owned(), args };
                    assert(cmd@.args =~= seq!["install"@, "-y"@, "flathub"@, pkgs.deep_view()[i as int]]);
                    let ghost pre = out.deep_view();
                    out.push(cmd);
                    proof {
                        assert(out.deep_view() =~= pre.push(cmd@));
                        crate::seqs::lemma_take_step(pkgs.deep_view(), i as int);
                    }
                    assert(out.deep_view() =~= spec_install_commands(
                        PackageManager::Flatpak,
                        pkgs.deep_view().take(i as int + 1),
                    ));
                    i = i + 1;
                }
                assert(pkgs.deep_view().take(pkgs.len() as int) =~= pkgs.deep_view());
                out
            },
            PackageManager::Winget => {
                let mut out: Vec<CommandSpec> = Vec::new();
                let mut i: usize = 0;
                while i < pkgs.len()
                    invariant
                        i <= pkgs.len(),
                        out.deep_view() =~= spec_install_commands(
                            PackageManager::Winget,
                            pkgs.deep_view().take(i as int),
                        ),
                    decreases pkgs.len() - i,
                {
                    let mut args: Vec<String> = Vec::new();
                    args.push("install".to_owned());
                    args.push("-e".to_owned());
                    args.push("--id".to_owned());
                    args.push(pkgs[i].clone());
                    let cmd = CommandSpec { bin: "winget".to_owned(), args };
                    assert(cmd@.args =~= seq!["install"@, "-e"@, "--id"@, pkgs.deep_view()[i as int]]);
                    let ghost pre = out.deep_view();
                    out.push(cmd);
                    proof {
                        assert(out.deep_view() =~= pre.push(cmd@));
                        crate::seqs::lemma_take_step(pkgs.deep_view(), i as int);
                    }
                    assert(out.deep_view() =~= spec_install_commands(
                        PackageManager::Winget,
                        pkgs.deep_view().take(i as int + 1),
                    ));
                    i = i + 1;
                }
                assert(pkgs.deep_view().take(pkgs.len() as int) =~= pkgs.deep_view());
                out
            },
            _ => {
                let mut args: Vec<String> = Vec::new();
                let bin: String;
                match self {
                    PackageManager::Apt => {
                        bin = "sudo".to_owned();
                        args.push("apt-get".to_owned());
                        args.push("install".to_owned());
                        args.push("-y".to_owned());
                    },
                    PackageManager::Dnf => {
                        bin = "sudo".to_owned();
                        args.push("dnf".to_owned());
                        args.push("install".to_owned());
                        args.push("-y".to_owned());
                    },
                    PackageManager::Pacman => {
                        bin = "sudo".to_owned();
                        args.push("pacman".to_owned());
                        args.push("-S".to_owned());
                        args.push("--noconfirm".to_owned());
                        args.push("--needed".to_owned());
                    },
                    PackageManager::Yay => {
                        bin = "yay".to_owned();
                        args.push("-S".to_owned());
                        args.push("--noconfirm".to_owned());
                        args.push("--needed".to_owned());
                    },
                    PackageManager::Paru => {
                        bin = "paru".to_owned();
                        args.push("-S".to_owned());
                        args.push("--noconfirm".to_owned());
                        args.push("--needed".to_owned());
                    },
                    PackageManager::Zypper => {
                        bin = "sudo".to_owned();
                        args.push("zypper".to_owned());
                        args.push("install".to_owned());
                        args.push("-y".to_owned());
                    },
                    PackageManager::Brew => {
                        bin = "brew".to_owned();
                        args.push("install".to_owned());
                    },
                    PackageManager::Scoop => {
                        bin = "scoop.cmd".to_owned();
                        args.push("install".to_owned());
                    },
                    PackageManager::Choco => {
                        bin = "choco".to_owned();
                        args.push("install".to_owned());
                        args.push("-y".to_owned());
                    },
                    PackageManager::Cargo => {
                        bin = "cargo".to_owned();
                        args.push("install".to_owned());
                    },
                    PackageManager::Npm => {
                        bin = "npm".to_owned();
                        args.push("i".to_owned());
                        args.push("-g".to_owned());
                    },
                    PackageManager::Flatpak | PackageManager::Winget => {
                        // handled by the arms above
                        bin = "flatpak".to_owned();
                    },
                }
                assert(args.deep_view() =~= spec_install_prefix(*self).args);
                assert(bin@ == spec_install_prefix(*self).bin);
                let ghost prefix_len: int = args.deep_view().len() as int;
                let mut i: usize = 0;
                while i < pkgs.len()
                    invariant
                        i <= pkgs.len(),
                        args.deep_view() =~= spec_install_prefix(*self).args
                            + pkgs.deep_view().take(i as int),
                    decreases pkgs.len() - i,
                {
                    let ghost pre = args.deep_view();
                    args.push(pkgs[i].clone());
                    proof {
                        assert(args.deep_view() =~= pre.push(pkgs.deep_view()[i as int]));
                        crate::seqs::lemma_take_step(pkgs.deep_view(), i as int);
                    }
                    assert(args.deep_view() =~= spec_install_prefix(*self).args
                        + pkgs.deep_view().take(i as int + 1));
                    i = i + 1;
                }
                assert(pkgs.deep_view().take(pkgs.len() as int) =~= pkgs.deep_view());
                let cmd = CommandSpec { bin, args };
                let mut out: Vec<CommandSpec> = Vec::new();
                out.push(cmd);
                assert(out.deep_view() =~= spec_install_commands(*self, pkgs.deep_view()));
                out
            },
        }
    }

    /// The query invocation that checks whether `pkg` is already installed.
    pub fn install_check_command(&self, pkg: &String) -> (r: CommandSpec)
        ensures
            r@ == spec_check_command(*self, pkg@),
    {
        let mut args: Vec<String> = Vec::new();
        let bin: String;
        match self {
            PackageManager::Pacman | PackageManager::Yay | PackageManager::Paru => {
                bin = "pacman".to_owned();
                args.push("-Q".to_owned());
                args.push(pkg.clone());
            },
            PackageManager::Apt => {
                bin = "dpkg".to_owned();
                args.push("-l".to_owned());
                args.push(pkg.clone());
            },
            PackageManager::Dnf | PackageManager::Zypper => {
                bin = "rpm".to_owned();
                args.push("-q".to_owned());
                args.push(pkg.clone());
            },
            PackageManager::Flatpak => {
                bin = "flatpak".to_owned();
                args.push("info".to_owned());
                args.push(pkg.clone());
            },
            PackageManager::Brew => {
                bin = "brew".to_owned();
                args.push("list".to_owned());
                args.push("--versions".to_owned());
                args.push(pkg.clone());
            },
            PackageManager::Winget => {
                bin = "winget".to_owned();
                args.push("list".to_owned());
                args.push("--id".to_owned());
                args.push(pkg.clone());
            },
            PackageManager::Scoop => {
                bin = "scoop.cmd".to_owned();
                args.push("list".to_owned());
                args.push(pkg.clone());
            },
            PackageManager::Choco => {
                bin = "choco".to_owned();
                args.push("list".to_owned());
                args.push("--local-only".to_owned());
                args.push(pkg.clone());
            },
            PackageManager::Cargo => {
                bin = "cargo".to_owned();
                args.push("install".to_owned());
                args.push("--list".to_owned());
            },
            PackageManager::Npm => {
                bin = "npm".to_owned();
                args.push("list".to_owned());
                args.push("--depth=0".to_owned());
                args.push("-g".to_owned());
                args.push(pkg.clone());
            },
        }
        let cmd = CommandSpec { bin, args };
        assert(cmd@.args =~= spec_check_command(*self, pkg@).args);
        cmd
    }
}

/// Inherited document defaults a step may override.
#[derive(Debug, Clone, Copy)]
pub struct Defaults {
    pub windows_package_manager: Option<PackageManager>,
    pub windows_shell: Option<Shell>,
    pub linux_shell: Option<Shell>,
    pub macos_shell: Option<Shell>,
}

impl Defaults {
    /// Field-by-field override: a child document's own defaults win over
    /// the inherited ones wherever the child sets a field.
    pub fn merge(inherited: &Option<Defaults>, own: &Option<Defaults>) -> (r: Defaults)
        ensures
            r == spec_merge_defaults(*inherited, *own),
    {
        let base = match inherited {
            Some(d) => *d,
            None => Defaults {
                windows_package_manager: None,
                windows_shell: None,
                linux_shell: None,
                macos_shell: None,
            },
        };
        match own {
            Some(d) => Defaults {
                windows_package_manager: match d.windows_package_manager {
                    Some(m) => Some(m),
                    None => base.windows_package_manager,
                },
                windows_shell: match d.windows_shell {
                    Some(s) => Some(s),
                    None => base.windows_shell,
                },
                linux_shell: match d.linux_shell {
                    Some(s) => Some(s),
                    None => base.linux_shell,
                },
                macos_shell: match d.macos_shell {
                    Some(s) => Some(s),
                    None => base.macos_shell,
                },
            },
            None => base,
        }
    }
}

/// What `Defaults::merge` returns: per-field, the child's value when set,
/// else the inherited one.
pub open spec fn spec_merge_defaults(inherited: Option<Defaults>, own: Option<Defaults>) -> Defaults {
    let base = match inherited {
        Some(d) => d,
        None => Defaults {
            windows_package_manager: None,
            windows_shell: None,
            linux_shell: None,
            macos_shell: None,
        },
    };
    match own {
        Some(d) => Defaults {
            windows_package_manager: if d.windows_package_manager is Some {
                d.windows_package_manager
            } else {
                base.windows_package_manager
            },
            windows_shell: if d.windows_shell is Some {
                d.windows_shell
            } else {
                base.windows_shell
            },
            linux_shell: if d.linux_shell is Some {
                d.linux_shell
            } else {
                base.linux_shell
            },
            macos_shell: if d.macos_shell is Some {
                d.macos_shell
            } else {
                base.macos_shell
            },
        },
        None => base,
    }
}

/// A script body together with the shell that runs it.
#[derive(Debug)]
pub struct Script {
    pub shell: Shell,
    pub code: String,
}

/// Mathematical image of a `Script`.
#[verifier::ext_equal]
pub struct ScriptV {
    pub shell: Shell,
    pub code: Seq<char>,
}

impl View for Script {
    type V = ScriptV;

    open spec fn view(&self) -> ScriptV {
        ScriptV { shell: self.shell, code: self.code@ }
    }
}

impl DeepView for Script {
    type V = ScriptV;

    open spec fn deep_view(&self) -> ScriptV {
        self@
    }
}

impl Clone for Script {
    /// A script clone is indistinguishable from the original.
    fn clone(&self) -> (res: Self)
        ensures
            res == *self,
    {
        Script { shell: self.shell, code: self.code.clone() }
    }
}

/// One unit of provisioning work.
#[derive(Debug)]
pub struct Step {
    pub id: String,
    pub tags: Vec<String>,
    pub os: Option<Expr>,
    pub env: Vec<String>,
    pub when_script: Option<Script>,
    pub package_source: Option<PackageSource>,
    pub packages: Vec<String>,
    pub pre_script: Option<Script>,
    pub script: Option<Script>,
    pub source_file: String,
    pub defaults: Option<Defaults>,
}

/// Mathematical image of a `Step`.
#[verifier::ext_equal]
pub struct StepV {
    pub id: Seq<char>,
    pub tags: Seq<Seq<char>>,
    pub os: Option<ExprV>,
    pub env: Seq<Seq<char>>,
    pub when_script: Option<ScriptV>,
    pub package_source: Option<PackageSource>,
    pub packages: Seq<Seq<char>>,
    pub pre_script: Option<ScriptV>,
    pub script: Option<ScriptV>,
    pub source_file: Seq<char>,
    pub defaults: Option<Defaults>,
}

impl View for Step {
    type V = StepV;

    open spec fn view(&self) -> StepV {
        StepV {
            id: self.id@,
            tags: self.tags.deep_view(),
            os: self.os.deep_view(),
            env: self.env.deep_view(),
            when_script: self.when_script.deep_view(),
            package_source: self.package_source,
            packages: self.packages.deep_view(),
            pre_script: self.pre_script.deep_view(),
            script: self.script.deep_view(),
            source_file: self.source_file@,
            defaults: self.defaults,
        }
    }
}

impl DeepView for Step {
    type V = StepV;

    open spec fn deep_view(&self) -> StepV {
        self@
    }
}

impl Clone for Step {
    /// A step clone has the same image as the original.
    fn clone(&self) -> (res: Self)
        ensures
            res@ == self@,
    {
        let res = Step {
            id: self.id.clone(),
            tags: self.tags.clone(),
            os: self.os.clone(),
            env: self.env.clone(),
            when_script: self.when_script.clone(),
            package_source: self.package_source,
            packages: self.packages.clone(),
            pre_script: self.pre_script.clone(),
            script: self.script.clone(),
            source_file: self.source_file.clone(),
            defaults: self.defaults,
        };
        proof {
            assert(res.tags.deep_view() =~= self.tags.deep_view());
            assert(res.env.deep_view() =~= self.env.deep_view());
            assert(res.packages.deep_view() =~= self.packages.deep_view());
        }
        res
    }
}

/// The shells a step's scripts mention, in encounter order (guard, pre,
/// main), each once.
pub open spec fn used_shell_list(s: StepV) -> Seq<Shell> {
    let l0 = Seq::<Shell>::empty();
    let l1 = match s.when_script {
        Some(sc) => if l0.contains(sc.shell) {
            l0
        } else {
            l0.push(sc.shell)
        },
        None => l0,
    };
    let l2 = match s.pre_script {
        Some(sc) => if l1.contains(sc.shell) {
            l1
        } else {
            l1.push(sc.shell)
        },
        None => l1,
    };
    let l3 = match s.script {
        Some(sc) => if l2.contains(sc.shell) {
            l2
        } else {
            l2.push(sc.shell)
        },
        None => l2,
    };
    l3
}

impl Step {
    /// The shells this step's guard, pre and main scripts use, in
    /// encounter order, each once.
    pub fn all_used_shells(&self) -> (r: Vec<Shell>)
        ensures
            r@ == used_shell_list(self@),
    {
        let mut v: Vec<Shell> = Vec::new();
        if let Some(sc) = &self.when_script {
            push_shell_unique(&mut v, sc.shell);
        }
        if let Some(sc) = &self.pre_script {
            push_shell_unique(&mut v, sc.shell);
        }
        if let Some(sc) = &self.script {
            push_shell_unique(&mut v, sc.shell);
        }
        v
    }
}

/// Pushes `sh` unless it is already present.
fn push_shell_unique(v: &mut Vec<Shell>, sh: Shell)
    ensures
        final(v)@ == if old(v)@.contains(sh) {
            old(v)@
        } else {
            old(v)@.push(sh)
        },
{
    let mut i: usize = 0;
    while i < v.len()
        invariant
            i <= v.len(),
            forall|k: int| 0 <= k < i ==> v@[k] != sh,
            v == old(v),
        decreases v.len() - i,
    {
        if v[i] == sh {
            assert(v@.contains(sh));
            return ;
        }
        i = i + 1;
    }
    assert(!old(v)@.contains(sh)) by {
        assert(forall|k: int| 0 <= k < old(v)@.len() ==> old(v)@[k] != sh);
    }
    v.push(sh);
}

/// The sections of one provisioning document, before includes are merged.
#[derive(Debug)]
pub struct Config {
    pub includes: Option<Vec<String>>,
    pub defaults: Option<Defaults>,
    pub steps: Option<Vec<Step>>,
}

/// The package source a lower-cased name denotes, if any.
pub open spec fn spec_source_from_name(n: Seq<char>) -> Option<PackageSource> {
    if n == "aur"@ {
        Some(PackageSource::Repository(Repository::Aur))
    } else if n == "apt"@ {
        Some(PackageSource::Manager(PackageManager::Apt))
    } else if n == "dnf"@ {
        Some(PackageSource::Manager(PackageManager::Dnf))
    } else if n == "pacman"@ {
        Some(PackageSource::Manager(PackageManager::Pacman))
    } else if n == "zypper"@ {
        Some(PackageSource::Manager(PackageManager::Zypper))
    } else if n == "yay"@ {
        Some(PackageSource::Manager(PackageManager::Yay))
    } else if n == "paru"@ {
        Some(PackageSource::Manager(PackageManager::Paru))
    } else if n == "flatpak"@ {
        Some(PackageSource::Manager(PackageManager::Flatpak))
    } else if n == "brew"@ {
        Some(PackageSource::Manager(PackageManager::Brew))
    } else if n == "scoop"@ {
        Some(PackageSource::Manager(PackageManager::Scoop))
    } else if n == "choco"@ {
        Some(PackageSource::Manager(PackageManager::Choco))
    } else if n == "winget"@ {
        Some(PackageSource::Manager(PackageManager::Winget))
    } else if n == "cargo"@ {
        Some(PackageSource::Manager(PackageManager::Cargo))
    } else if n == "npm"@ {
        Some(PackageSource::Manager(PackageManager::Npm))
    } else {
        None
    }
}

/// Resolves a `package_source` name from the document, case-insensitively.
pub fn package_source_from_name(name: &String) -> (r: Option<PackageSource>)
    ensures
        r == spec_source_from_name(crate::expr::lower_seq(name@)),
{
    let lowered = crate::expr::lower_string(name);
    if string_eq_lit(&lowered, "aur") {
        Some(PackageSource::Repository(Repository::Aur))
    } else if string_eq_lit(&lowered, "apt") {
        Some(PackageSource::Manager(PackageManager::Apt))
    } else if string_eq_lit(&lowered, "dnf") {
        Some(PackageSource::Manager(PackageManager::Dnf))
    } else if string_eq_lit(&lowered, "pacman") {
        Some(PackageSource::Manager(PackageManager::Pacman))
    } else if string_eq_lit(&lowered, "zypper") {
        Some(PackageSource::Manager(PackageManager::Zypper))
    } else if string_eq_lit(&lowered, "yay") {
        Some(PackageSource::Manager(PackageManager::Yay))
    } else if string_eq_lit(&lowered, "paru") {
        Some(PackageSource::Manager(PackageManager::Paru))
    } else if string_eq_lit(&lowered, "flatpak") {
        Some(PackageSource::Manager(PackageManager::Flatpak))
    } else if string_eq_lit(&lowered, "brew") {
        Some(PackageSource::Manager(PackageManager::Brew))
    } else if string_eq_lit(&lowered, "scoop") {
        Some(PackageSource::Manager(PackageManager::Scoop))
    } else if string_eq_lit(&lowered, "choco") {
        Some(PackageSource::Manager(PackageManager::Choco))
    } else if string_eq_lit(&lowered, "winget") {
        Some(PackageSource::Manager(PackageManager::Winget))
    } else if string_eq_lit(&lowered, "cargo") {
        Some(PackageSource::Manager(PackageManager::Cargo))
    } else if string_eq_lit(&lowered, "npm") {
        Some(PackageSource::Manager(PackageManager::Npm))
    } else {
        None
    }
}

/// Compares a string to a literal.
fn string_eq_lit(s: &String, lit: &str) -> (r: bool)
    ensures
        r == (s@ == lit@),
{
    let other = lit.to_owned();
    *s == other
}

} // verus!

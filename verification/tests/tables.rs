use mepris::config::{
    package_source_from_name, Defaults, PackageManager, PackageSource, Repository, Shell,
};
use mepris::osinfo::Platform;
use mepris::runner::{default_package_manager, step_package_manager};

#[test]
fn test_install_commands_single_invocation() {
    let pkgs = vec!["git".to_string(), "vim".to_string()];
    let cmds = PackageManager::Apt.commands_to_install(&pkgs);
    assert_eq!(cmds.len(), 1);
    assert_eq!(cmds[0].bin, "sudo");
    assert_eq!(
        cmds[0].args,
        vec!["apt-get".to_string(), "install".to_string(), "-y".to_string(), "git".to_string(), "vim".to_string()]
    );
}

#[test]
fn test_install_commands_per_package() {
    let pkgs = vec!["a".to_string(), "b".to_string()];
    let cmds = PackageManager::Flatpak.commands_to_install(&pkgs);
    assert_eq!(cmds.len(), 2);
    assert_eq!(cmds[0].bin, "flatpak");
    assert_eq!(
        cmds[0].args,
        vec!["install".to_string(), "-y".to_string(), "flathub".to_string(), "a".to_string()]
    );
    assert_eq!(
        cmds[1].args,
        vec!["install".to_string(), "-y".to_string(), "flathub".to_string(), "b".to_string()]
    );
}

#[test]
fn test_install_check_command() {
    let cmd = PackageManager::Apt.install_check_command(&"git".to_string());
    assert_eq!(cmd.bin, "dpkg");
    assert_eq!(cmd.args, vec!["-l".to_string(), "git".to_string()]);

    let cmd2 = PackageManager::Yay.install_check_command(&"vim".to_string());
    assert_eq!(cmd2.bin, "pacman");
    assert_eq!(cmd2.args, vec!["-Q".to_string(), "vim".to_string()]);
}

#[test]
fn test_manager_commands() {
    assert_eq!(PackageManager::Apt.command(), "apt-get");
    assert_eq!(PackageManager::Pacman.command(), "pacman");
    assert_eq!(PackageManager::Npm.command(), "npm");
    assert_eq!(Shell::Bash.get_command(), "bash");
    assert_eq!(Shell::PowerShellCore.get_command(), "pwsh");
}

#[test]
fn test_repository_candidates() {
    let aur = PackageSource::Repository(Repository::Aur);
    assert_eq!(
        aur.get_package_managers(),
        vec![PackageManager::Yay, PackageManager::Paru]
    );
    let fixed = PackageSource::Manager(PackageManager::Dnf);
    assert_eq!(fixed.get_package_managers(), vec![PackageManager::Dnf]);
}

#[test]
fn test_defaults_merge_overrides_per_field() {
    let inherited = Some(Defaults {
        windows_package_manager: Some(PackageManager::Scoop),
        windows_shell: Some(Shell::Bash),
        linux_shell: Some(Shell::PowerShellCore),
        macos_shell: Some(Shell::PowerShellCore),
    });
    let own = Some(Defaults {
        windows_package_manager: Some(PackageManager::Choco),
        windows_shell: Some(Shell::PowerShellCore),
        linux_shell: None,
        macos_shell: None,
    });
    let merged = Defaults::merge(&inherited, &own);
    assert_eq!(merged.windows_package_manager, Some(PackageManager::Choco));
    assert_eq!(merged.windows_shell, Some(Shell::PowerShellCore));
    assert_eq!(merged.linux_shell, Some(Shell::PowerShellCore));
    assert_eq!(merged.macos_shell, Some(Shell::PowerShellCore));

    let untouched = Defaults::merge(&inherited, &None);
    assert_eq!(untouched.windows_package_manager, Some(PackageManager::Scoop));
}

#[test]
fn test_step_manager_prefers_windows_default() {
    let step = mepris::config::Step {
        id: "s".to_string(),
        tags: vec![],
        os: None,
        env: vec![],
        when_script: None,
        package_source: None,
        packages: vec![],
        pre_script: None,
        script: None,
        source_file: String::new(),
        defaults: Some(Defaults {
            windows_package_manager: Some(PackageManager::Choco),
            windows_shell: None,
            linux_shell: None,
            macos_shell: None,
        }),
    };
    let default = PackageManager::Apt;
    let available: Vec<PackageManager> = vec![];
    assert_eq!(
        step_package_manager(&default, &step, Platform::Windows, &available),
        PackageManager::Choco
    );
    assert_eq!(
        step_package_manager(&default, &step, Platform::Linux, &available),
        PackageManager::Apt
    );
}

#[test]
fn test_step_manager_explicit_source_wins() {
    let mut step = mepris::config::Step {
        id: "s".to_string(),
        tags: vec![],
        os: None,
        env: vec![],
        when_script: None,
        package_source: Some(PackageSource::Manager(PackageManager::Choco)),
        packages: vec![],
        pre_script: None,
        script: None,
        source_file: String::new(),
        defaults: None,
    };
    let default = PackageManager::Apt;
    let available: Vec<PackageManager> = vec![];
    // the step's explicit choice beats the host default on any platform
    assert_eq!(
        step_package_manager(&default, &step, Platform::Linux, &available),
        PackageManager::Choco
    );
    // a repository source takes its first available candidate ...
    step.package_source = Some(PackageSource::Repository(Repository::Aur));
    assert_eq!(
        step_package_manager(&default, &step, Platform::Linux, &vec![PackageManager::Paru]),
        PackageManager::Paru
    );
    // ... and falls back to its first candidate when none is available
    assert_eq!(
        step_package_manager(&default, &step, Platform::Linux, &available),
        PackageManager::Yay
    );
}

#[test]
fn test_default_manager_detection() {
    let nothing: Vec<PackageManager> = vec![];
    // fixed picks off Linux
    assert_eq!(
        default_package_manager(Platform::MacOS, None, &nothing).unwrap(),
        PackageManager::Brew
    );
    assert_eq!(
        default_package_manager(Platform::Windows, None, &nothing).unwrap(),
        PackageManager::Winget
    );
    // Linux takes the first of its priority list that is present
    let dnf_only = vec![PackageManager::Dnf, PackageManager::Zypper];
    assert_eq!(
        default_package_manager(Platform::Linux, None, &dnf_only).unwrap(),
        PackageManager::Dnf
    );
    // an override wins outright
    assert_eq!(
        default_package_manager(Platform::Linux, Some(PackageManager::Npm), &nothing).unwrap(),
        PackageManager::Npm
    );
    // and with nothing present, detection fails
    assert!(default_package_manager(Platform::Linux, None, &nothing).is_err());
}

#[test]
fn test_package_source_names() {
    assert_eq!(
        package_source_from_name(&"AUR".to_string()),
        Some(PackageSource::Repository(Repository::Aur))
    );
    assert_eq!(
        package_source_from_name(&"apt".to_string()),
        Some(PackageSource::Manager(PackageManager::Apt))
    );
    assert_eq!(
        package_source_from_name(&"Winget".to_string()),
        Some(PackageSource::Manager(PackageManager::Winget))
    );
    assert_eq!(package_source_from_name(&"nope".to_string()), None);
}

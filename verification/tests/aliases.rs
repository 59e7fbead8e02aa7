use mepris::alias::{AliasTarget, PackageAliases};
use mepris::config::{PackageManager, PackageSource, Repository};

fn target(source: PackageSource, value: &str) -> AliasTarget {
    AliasTarget { source, value: value.to_string() }
}

#[test]
fn test_resolve_name() {
    let mut aliases = PackageAliases::new();
    aliases.insert(
        "firefox".to_string(),
        vec![target(
            PackageSource::Manager(PackageManager::Flatpak),
            "org.mozilla.firefox",
        )],
    );

    let name1 = aliases.resolve_name("firefox", &PackageManager::Pacman);
    assert_eq!(name1, "firefox");

    let name2 = aliases.resolve_name("firefox", &PackageManager::Flatpak);
    assert_eq!(name2, "org.mozilla.firefox");

    let name3 = aliases.resolve_name("chrome", &PackageManager::Pacman);
    assert_eq!(name3, "chrome");
}

#[test]
fn test_resolve_name_aur() {
    let mut aliases = PackageAliases::new();
    aliases.insert(
        "vim".to_string(),
        vec![target(PackageSource::Repository(Repository::Aur), "vim-aur")],
    );

    let name_yay = aliases.resolve_name("vim", &PackageManager::Yay);
    assert_eq!(name_yay, "vim-aur");

    let name_paru = aliases.resolve_name("vim", &PackageManager::Paru);
    assert_eq!(name_paru, "vim-aur");

    let name_pacman = aliases.resolve_name("vim", &PackageManager::Pacman);
    assert_eq!(name_pacman, "vim");
}

#[test]
fn test_resolve_names() {
    let mut aliases = PackageAliases::new();
    aliases.insert(
        "vim".to_string(),
        vec![target(PackageSource::Repository(Repository::Aur), "vim-aur")],
    );
    aliases.insert(
        "nano".to_string(),
        vec![target(PackageSource::Manager(PackageManager::Pacman), "nano-pac")],
    );

    let pkgs = vec!["vim".to_string(), "nano".to_string(), "htop".to_string()];
    let resolved = aliases.resolve_names(&pkgs, &PackageManager::Pacman);

    assert_eq!(resolved, vec!["vim", "nano-pac", "htop"]);
}

#[test]
fn test_merge_aliases() {
    let mut a1 = PackageAliases::new();
    a1.insert(
        "pkg_both".to_string(),
        vec![
            target(PackageSource::Repository(Repository::Aur), "pkg_both_aur"),
            target(PackageSource::Manager(PackageManager::Apt), "pkg_both_apt"),
        ],
    );
    a1.insert(
        "pkg_only_first".to_string(),
        vec![target(
            PackageSource::Manager(PackageManager::Flatpak),
            "pkg_only_first_flatpak",
        )],
    );

    let mut a2 = PackageAliases::new();
    a2.insert(
        "pkg_both".to_string(),
        vec![
            target(PackageSource::Manager(PackageManager::Pacman), "pkg_both_pacman"),
            target(
                PackageSource::Manager(PackageManager::Apt),
                "pkg_both_apt_overriden",
            ),
        ],
    );
    a2.insert(
        "pkg_only_second".to_string(),
        vec![target(
            PackageSource::Manager(PackageManager::Flatpak),
            "pkg_only_second_flatpak",
        )],
    );

    let merged = a1.merge(&a2);

    // per-source lookups through the managers that use each source
    assert_eq!(merged.resolve_name("pkg_both", &PackageManager::Yay), "pkg_both_aur");
    assert_eq!(
        merged.resolve_name("pkg_both", &PackageManager::Pacman),
        "pkg_both_pacman"
    );
    assert_eq!(
        merged.resolve_name("pkg_both", &PackageManager::Apt),
        "pkg_both_apt_overriden"
    );
    assert_eq!(
        merged.resolve_name("pkg_only_first", &PackageManager::Flatpak),
        "pkg_only_first_flatpak"
    );
    assert_eq!(
        merged.resolve_name("pkg_only_second", &PackageManager::Flatpak),
        "pkg_only_second_flatpak"
    );
}

#[test]
fn test_insert_shadows_earlier_binding() {
    let mut aliases = PackageAliases::new();
    aliases.insert(
        "git".to_string(),
        vec![target(PackageSource::Manager(PackageManager::Apt), "git-old")],
    );
    aliases.insert(
        "git".to_string(),
        vec![target(PackageSource::Manager(PackageManager::Apt), "git-new")],
    );
    assert_eq!(aliases.resolve_name("git", &PackageManager::Apt), "git-new");
}

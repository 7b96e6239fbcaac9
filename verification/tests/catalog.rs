use jb_reset::{extract_version, filter_products, JetBrainsProduct, ProductInstall, TrialStatus};

#[test]
fn test_extract_version() {
    assert_eq!(extract_version("IntelliJIdea2025.2"), "2025.2");
    assert_eq!(extract_version("PyCharm2024.3"), "2024.3");
}

#[test]
fn test_product_from_dir() {
    assert_eq!(
        JetBrainsProduct::from_dir_name("IntelliJIdea2025.2"),
        Some(JetBrainsProduct::IntelliJIdea)
    );
    assert_eq!(
        JetBrainsProduct::from_dir_name("PyCharm2024.3"),
        Some(JetBrainsProduct::PyCharm)
    );
}

#[test]
fn identify_every_known_prefix() {
    let cases = [
        ("IntelliJIdea2025.1", JetBrainsProduct::IntelliJIdea),
        ("PyCharm2024.3", JetBrainsProduct::PyCharm),
        ("WebStorm2024.2", JetBrainsProduct::WebStorm),
        ("PhpStorm2023.3", JetBrainsProduct::PhpStorm),
        ("CLion2024.1.3", JetBrainsProduct::CLion),
        ("GoLand2024.1", JetBrainsProduct::GoLand),
        ("Rider2024.2", JetBrainsProduct::Rider),
        ("DataGrip2024.1", JetBrainsProduct::DataGrip),
        ("RubyMine2024.1", JetBrainsProduct::RubyMine),
        ("RustRover2024.1", JetBrainsProduct::RustRover),
        ("AndroidStudio2024.2", JetBrainsProduct::AndroidStudio),
        ("Fleet", JetBrainsProduct::Fleet),
    ];
    for (dir, product) in cases {
        assert_eq!(JetBrainsProduct::from_dir_name(dir), Some(product));
    }
}

#[test]
fn identify_rejects_unknown_names() {
    assert_eq!(JetBrainsProduct::from_dir_name("RandomApp1.0"), None);
    assert_eq!(JetBrainsProduct::from_dir_name(""), None);
    assert_eq!(JetBrainsProduct::from_dir_name("intellijidea2025.2"), None);
}

#[test]
fn version_keeps_two_segments() {
    assert_eq!(extract_version("CLion2024.1.3"), "2024.1");
    assert_eq!(extract_version("Fleet"), "");
    assert_eq!(extract_version("GoLand2024"), "2024");
}

#[test]
fn names_and_icons_are_fixed() {
    assert_eq!(JetBrainsProduct::IntelliJIdea.name(), "IntelliJ IDEA");
    assert_eq!(JetBrainsProduct::AndroidStudio.name(), "Android Studio");
    assert_eq!(JetBrainsProduct::RustRover.name(), "RustRover");
    assert_eq!(JetBrainsProduct::PyCharm.icon(), "🐍");
}

fn install(product: JetBrainsProduct, version: &str) -> ProductInstall {
    ProductInstall {
        product,
        version: version.to_string(),
        config_path: format!("/home/u/.config/JetBrains/X{}", version),
        data_path: format!("/home/u/.local/share/JetBrains/X{}", version),
        trial_status: TrialStatus::Unknown,
    }
}

#[test]
fn filter_matches_case_insensitively() {
    let all = vec![
        install(JetBrainsProduct::IntelliJIdea, "2025.2"),
        install(JetBrainsProduct::PyCharm, "2024.3"),
        install(JetBrainsProduct::CLion, "2024.1"),
    ];
    let picked = filter_products(&all, &vec!["pycharm".to_string()]);
    assert_eq!(picked.len(), 1);
    assert_eq!(picked[0].product, JetBrainsProduct::PyCharm);

    let picked = filter_products(&all, &vec!["IDEA".to_string(), "clion".to_string()]);
    assert_eq!(picked.len(), 2);
    assert_eq!(picked[0].product, JetBrainsProduct::IntelliJIdea);
    assert_eq!(picked[1].product, JetBrainsProduct::CLion);

    let picked = filter_products(&all, &vec![]);
    assert_eq!(picked.len(), 0);
}

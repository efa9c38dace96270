use bevy_embedded_assets::manifest::{
    asset_key, conventional_root, join, normalize_separators, project_folder, relative_path,
    resolve_root, AssetRoot, NoAssetRootFound,
};

#[test]
fn separators_of_the_platform_are_rewritten() {
    assert_eq!(
        normalize_separators("subdir\\other_asset.test", '\\'),
        "subdir/other_asset.test"
    );
    assert_eq!(normalize_separators("a\\b\\c\\", '\\'), "a/b/c/");
    assert_eq!(normalize_separators("\\", '\\'), "/");
    assert_eq!(normalize_separators("a\\b/c", '\\'), "a/b/c");
    assert_eq!(normalize_separators("açèt\\é.test", '\\'), "açèt/é.test");
}

#[test]
fn paths_of_a_platform_with_the_same_separator_stay() {
    assert_eq!(
        normalize_separators("subdir/other_asset.test", '/'),
        "subdir/other_asset.test"
    );
    assert_eq!(normalize_separators("a\\b/c", '/'), "a\\b/c");
    assert_eq!(normalize_separators("", '/'), "");
    assert_eq!(normalize_separators("", '\\'), "");
}

#[test]
fn normalizing_twice_changes_nothing_more() {
    let once = normalize_separators("a\\b\\c.png", '\\');
    assert_eq!(normalize_separators(&once, '\\'), once);
}

#[test]
fn relative_path_is_what_is_left_below_the_folder() {
    assert_eq!(
        relative_path("/p/assets", "/p/assets/a.png"),
        Some("a.png".to_string())
    );
    assert_eq!(
        relative_path("/p/assets/", "/p/assets/a.png"),
        Some("a.png".to_string())
    );
    assert_eq!(
        relative_path("/p/assets", "/p/assets/sub/a.png"),
        Some("sub/a.png".to_string())
    );
    assert_eq!(relative_path("", "/a.png"), Some("a.png".to_string()));
    assert_eq!(relative_path("dir", "dir/"), Some(String::new()));
    assert_eq!(relative_path("é", "é/è.png"), Some("è.png".to_string()));
}

#[test]
fn relative_path_is_none_beside_the_folder() {
    assert_eq!(relative_path("/p/assets", "/p/assets"), None);
    assert_eq!(relative_path("/p/assets/", "/p/assets/"), None);
    assert_eq!(relative_path("/p/assets", "/p/assets.png"), None);
    assert_eq!(relative_path("/p/assets", "/p/asset/a.png"), None);
    assert_eq!(relative_path("/p/assets", "/p"), None);
    assert_eq!(relative_path("/p/assets", ""), None);
    assert_eq!(relative_path("", "a.png"), None);
}

#[test]
fn asset_key_uses_the_separator_of_asset_paths() {
    assert_eq!(
        asset_key("/p/assets", "/p/assets/subdir/other_asset.test", '/'),
        Some("subdir/other_asset.test".to_string())
    );
    assert_eq!(
        asset_key(
            "C:\\p\\assets",
            "C:\\p\\assets\\subdir\\other_asset.test",
            '\\'
        ),
        Some("subdir/other_asset.test".to_string())
    );
    assert_eq!(
        asset_key("C:\\p\\assets\\", "C:\\p\\assets\\example_asset.test", '\\'),
        Some("example_asset.test".to_string())
    );
    assert_eq!(
        asset_key("C:\\p/assets", "C:\\p\\assets/açèt.test", '\\'),
        Some("açèt.test".to_string())
    );
    assert_eq!(
        asset_key("C:\\p\\assets", "C:\\p\\other\\a.png", '\\'),
        None
    );
    assert_eq!(asset_key("/p/assets", "/p/assets", '/'), None);
}

#[test]
fn join_puts_one_separator_between() {
    assert_eq!(join("/p", "assets", '/'), "/p/assets");
    assert_eq!(join("/p/", "assets", '/'), "/p/assets");
    assert_eq!(join("", "assets", '/'), "assets");
    assert_eq!(join("/", "assets", '/'), "/assets");
    assert_eq!(join("C:\\p", "assets", '\\'), "C:\\p\\assets");
    assert_eq!(join("C:\\p\\", "assets", '\\'), "C:\\p\\assets");
    assert_eq!(join("/p", "", '/'), "/p/");
    assert_eq!(join("é", "è", '/'), "é/è");
}

#[test]
fn project_is_beside_the_innermost_target() {
    assert_eq!(
        project_folder("/home/me/game/target/debug/build/game-1234/out", '/'),
        Some("/home/me/game".to_string())
    );
    assert_eq!(
        project_folder("/home/target/game/target/debug/out", '/'),
        Some("/home/target/game".to_string())
    );
    assert_eq!(
        project_folder("C:\\game\\target\\release\\build\\out", '\\'),
        Some("C:\\game".to_string())
    );
    assert_eq!(
        project_folder("/home/me/game/target", '/'),
        Some("/home/me/game".to_string())
    );
    assert_eq!(
        project_folder("/home/me/game/target/", '/'),
        Some("/home/me/game".to_string())
    );
    assert_eq!(
        project_folder("/home/é/target/out", '/'),
        Some("/home/é".to_string())
    );
}

#[test]
fn project_at_the_front_of_the_path() {
    assert_eq!(
        project_folder("target/debug/out", '/'),
        Some(String::new())
    );
    assert_eq!(project_folder("target", '/'), Some(String::new()));
    assert_eq!(project_folder("/target/debug", '/'), Some("/".to_string()));
}

#[test]
fn project_is_not_found_without_a_target() {
    assert_eq!(project_folder("/home/me/game/debug/out", '/'), None);
    assert_eq!(project_folder("", '/'), None);
    assert_eq!(project_folder("/home/me/targets/out", '/'), None);
    assert_eq!(project_folder("/home/me/my_target/out", '/'), None);
    assert_eq!(project_folder("/home/me/targe/t/out", '/'), None);
    assert_eq!(project_folder("/home/me/target.d/out", '/'), None);
    assert_eq!(project_folder("/home/me/Target/out", '/'), None);
    assert_eq!(project_folder("C:\\game\\target\\out", '/'), None);
    assert_eq!(project_folder("target", 'a'), None);
}

#[test]
fn convention_prefers_staged_assets() {
    assert_eq!(
        conventional_root("/home/me/game", true, '/'),
        "/home/me/game/imported_assets/Default"
    );
    assert_eq!(
        conventional_root("/home/me/game", false, '/'),
        "/home/me/game/assets"
    );
    assert_eq!(conventional_root("", false, '/'), "assets");
    assert_eq!(conventional_root("", true, '/'), "imported_assets/Default");
    assert_eq!(
        conventional_root("C:\\game", true, '\\'),
        "C:\\game\\imported_assets\\Default"
    );
}

#[test]
fn explicit_root_wins() {
    assert_eq!(
        resolve_root(
            Some("/elsewhere".to_string()),
            Some("/p/assets".to_string()),
            false
        ),
        Ok(AssetRoot::Folder("/elsewhere".to_string()))
    );
    assert_eq!(
        resolve_root(Some("/elsewhere".to_string()), None, true),
        Ok(AssetRoot::Folder("/elsewhere".to_string()))
    );
}

#[test]
fn conventional_root_is_next() {
    assert_eq!(
        resolve_root(None, Some("/p/assets".to_string()), false),
        Ok(AssetRoot::Folder("/p/assets".to_string()))
    );
    assert_eq!(
        resolve_root(None, Some("/p/assets".to_string()), true),
        Ok(AssetRoot::Folder("/p/assets".to_string()))
    );
}

#[test]
fn documentation_build_embeds_nothing() {
    assert_eq!(resolve_root(None, None, true), Ok(AssetRoot::Nothing));
}

#[test]
fn no_root_is_an_error() {
    assert_eq!(resolve_root(None, None, false), Err(NoAssetRootFound));
    assert_eq!(NoAssetRootFound.message(), "No asset folder found");
}

use orisa::host::{Fetch, HostError, LuaHost, Repo};
use orisa::package::PackageReference;

fn path(parts: &[&str]) -> Vec<String> {
    parts.iter().map(|p| p.to_string()).collect()
}

#[test]
fn repo_keeps_what_it_was_given() {
    let repo = Repo::new("/srv/orisa", "origin".to_string(), "master".to_string());
    assert_eq!(repo.root, "/srv/orisa");
    assert_eq!(repo.remote_name, "origin");
    assert_eq!(repo.branch_name, "master");
    assert_eq!(repo.duplicate(), repo);
}

#[test]
fn pull_reports_whether_the_branch_moved() {
    assert_eq!(
        Repo::pull_outcome("abc123", "Fix the lamp", "abc123"),
        (false, "Already at abc123 (Fix the lamp)".to_string())
    );
    assert_eq!(
        Repo::pull_outcome("abc123", "Fix the lamp", "000fff"),
        (true, "Updated to abc123 (Fix the lamp)".to_string())
    );
    assert_eq!(Repo::pull_outcome("a", "", "b"), (true, "Updated to a ()".to_string()));
}

#[test]
fn system_package_has_a_file_under_the_root() {
    let main = PackageReference::main_package();
    assert_eq!(LuaHost::filesystem_package_file(&main), Ok("main.lua".to_string()));
    let room = PackageReference::for_room();
    assert_eq!(LuaHost::filesystem_package_file(&room), Ok("room.lua".to_string()));
}

#[test]
fn other_packages_have_no_file() {
    for name in ["alice/live.user", "alice.user", "system/live.user", "alice/system.user"] {
        let p = PackageReference::new(name).unwrap();
        assert_eq!(LuaHost::filesystem_package_file(&p), Err(HostError::NotSystemPackage), "{}", name);
    }
}

#[test]
fn file_under_the_root_may_be_read() {
    let host = LuaHost::new(path(&["/", "srv", "lua"]), None);
    assert_eq!(host.check_resolved(&path(&["/", "srv", "lua", "main.lua"])), Ok(()));
    assert_eq!(host.check_resolved(&path(&["/", "srv", "lua", "sub", "main.lua"])), Ok(()));
    assert_eq!(host.check_resolved(&path(&["/", "srv", "lua"])), Ok(()));
}

#[test]
fn file_outside_the_root_is_refused() {
    let host = LuaHost::new(path(&["/", "srv", "lua"]), None);
    assert_eq!(host.check_resolved(&path(&["/", "etc", "passwd"])), Err(HostError::OutsideRoot));
    assert_eq!(host.check_resolved(&path(&["/", "srv"])), Err(HostError::OutsideRoot));
    assert_eq!(host.check_resolved(&path(&["/", "srv", "lua2", "main.lua"])), Err(HostError::OutsideRoot));
    assert_eq!(host.check_resolved(&path(&["/", "srv", "luamain.lua"])), Err(HostError::OutsideRoot));
    assert_eq!(host.check_resolved(&path(&["srv", "lua", "main.lua"])), Err(HostError::OutsideRoot));
    assert_eq!(host.check_resolved(&path(&[])), Err(HostError::OutsideRoot));
    let top = LuaHost::new(path(&[]), None);
    assert_eq!(top.check_resolved(&path(&["anything"])), Ok(()));
}

#[test]
fn fetch_pulls_only_where_a_repository_is_followed() {
    let none = LuaHost::new(path(&["/", "srv"]), None);
    assert_eq!(none.fetch(), Fetch::NotUpdating("Not updating from git.".to_string()));
    let repo = Repo::new("/srv", "origin".to_string(), "master".to_string());
    let some = LuaHost::new(path(&["/", "srv"]), Some(repo.duplicate()));
    assert_eq!(some.fetch(), Fetch::Pull(repo));
}

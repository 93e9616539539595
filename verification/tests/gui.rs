use nimble::config::Config;
use nimble::gui::create_repo::{
    check_for_changes, clean_directory, has_text, update_mods_list, CleanAction, CleanOptions,
    DirEntry,
};
use nimble::gui::panels::{
    format_duration, is_blank, validate_path, ConnectionView, GenSrfPanel, LaunchPanel, Profile, ProfileManager,
    SyncPanel,
};
use nimble::gui::widgets::{has_outstayed, PathPicker, StatusDisplay};
use nimble::gui::Tab;
use nimble::{exit_code, NimbleError, RunEnd};

#[test]
fn test_sync_panel() {
    let panel = SyncPanel::default();
    assert!(panel.repo_url().is_empty());
    assert!(panel.base_path().is_empty());
}

#[test]
fn test_launch_panel() {
    let panel = LaunchPanel::default();
    assert!(panel.base_path().is_empty());
}

#[test]
fn test_gen_srf_panel() {
    let panel = GenSrfPanel::default();
    assert!(panel.base_path().is_empty());
}

#[test]
fn sync_panel_validation() {
    let mut panel = SyncPanel::default();
    assert_eq!(panel.validate(), Err("Repository URL is required".to_string()));
    panel.repo_url = "   ".to_string();
    assert_eq!(panel.validate(), Err("Repository URL is required".to_string()));
    panel.repo_url = "http://example.org/".to_string();
    assert_eq!(panel.validate(), Err("Base path is required".to_string()));
    panel.path_picker.set_path(&" \t".to_string());
    assert_eq!(panel.validate(), Err("Base path is required".to_string()));
    panel.path_picker.set_path(&"/mods".to_string());
    assert_eq!(panel.validate(), Ok(()));
    assert_eq!(panel.repo_url(), "http://example.org/");
    assert_eq!(panel.base_path(), "/mods");
}

#[test]
fn blank_text_is_only_white_space() {
    assert!(is_blank(""));
    assert!(is_blank(" \n\t\r"));
    assert!(!is_blank(" a "));
}

#[test]
fn launch_panel_validation() {
    let panel = LaunchPanel::default();
    assert_eq!(
        panel.validate(false, false),
        Err("Mods path does not exist".to_string())
    );
    assert_eq!(
        panel.validate(true, false),
        Err("Mods path must be a directory".to_string())
    );
    assert_eq!(panel.validate(true, true), Ok(()));
}

#[test]
fn gen_srf_validation() {
    assert_eq!(validate_path("", true), Err("Input path is required".to_string()));
    assert_eq!(
        validate_path("/mods", false),
        Err("Input path does not exist".to_string())
    );
    assert_eq!(validate_path("/mods", true), Ok(()));
    assert_eq!(GenSrfPanel::validate(""), Err("Input path is required".to_string()));
    assert_eq!(GenSrfPanel::validate("/mods"), Ok(()));
    let mut panel = GenSrfPanel::default();
    panel.remember_output("/out".to_string());
    assert_eq!(panel.state.output_dir, Some("/out".to_string()));
    panel.remember_output(String::new());
    assert_eq!(panel.state.output_dir, None);
}

#[test]
fn connection_view_validation() {
    assert_eq!(
        ConnectionView::validate("  "),
        Err("Repository URL is required".to_string())
    );
    assert_eq!(ConnectionView::validate("http://x"), Ok(()));
    assert!(ConnectionView::default().repo_url.is_empty());
}

#[test]
fn path_picker_holds_path() {
    let mut p = PathPicker::new("Base Path:", "Select Mods Directory");
    assert_eq!(p.path(), "");
    assert_eq!(p.label(), "Base Path:");
    assert_eq!(p.dialog_title(), "Select Mods Directory");
    p.set_path(&"/home/mods".to_string());
    assert_eq!(p.path(), "/home/mods");
    p.clear();
    assert_eq!(p.path(), "");
    assert_eq!(p.label(), "Base Path:");
}

#[test]
fn status_display_messages() {
    let mut s = StatusDisplay::default();
    assert_eq!(s.current(), None);
    s.set_error("broken".to_string());
    assert_eq!(s.current(), Some(("broken".to_string(), true)));
    s.set_info("fine".to_string());
    assert_eq!(s.current(), Some(("fine".to_string(), false)));
    s.set_message("again".to_string(), true);
    assert_eq!(s.current(), Some(("again".to_string(), true)));
    s.clear();
    assert_eq!(s.current(), None);
    assert!(has_outstayed(6, 5));
    assert!(!has_outstayed(5, 5));
}

fn profile(name: &str, url: &str, path: &str) -> Profile {
    Profile {
        name: name.to_string(),
        repo_url: url.to_string(),
        base_path: path.to_string(),
    }
}

#[test]
fn profile_manager_selection() {
    let mut m = ProfileManager::default();
    assert!(m.get_selected_profile().is_none());
    assert_eq!(m.get_current_url(), None);
    assert_eq!(m.get_first_profile_name(), None);
    m.update_profiles(|mut v| {
        v.push(profile("one", "http://one/", "/one"));
        v.push(profile("two", "http://two/", "/two"));
        v.push(profile("two", "http://other/", "/other"));
        v
    });
    assert_eq!(m.get_first_profile_name(), Some("one".to_string()));
    m.set_selected(Some("two".to_string()));
    assert_eq!(m.get_selected_profile().unwrap().repo_url, "http://two/");
    assert_eq!(m.get_current_url(), Some("http://two/".to_string()));
    assert_eq!(m.get_base_path(), "/two");
    m.set_selected(Some("missing".to_string()));
    assert!(m.get_selected_profile().is_none());
    assert_eq!(m.get_base_path(), "/two");
    m.set_selected(None);
    assert_eq!(m.get_base_path(), "");
    assert_eq!(m.get_current_url(), None);
}

#[test]
fn profile_manager_editing() {
    let mut m = ProfileManager::default();
    assert!(m.get_editing().is_none());
    m.set_editing(Some(profile("e", "u", "p")));
    assert_eq!(m.get_editing().unwrap().name, "e");
    m.set_editor_profile(None);
    assert!(m.get_editing().is_none());
    assert!(Profile::default().name.is_empty());
}

#[test]
fn defaults_of_small_types() {
    assert_eq!(Tab::default(), Tab::Server);
    let c = Config::default();
    assert_eq!(c.repo_url, "http://swifty.peanutcommunityarma.com/");
    assert_eq!(c.local_path, "");
    let o = CleanOptions::default();
    assert!(o.force_lowercase);
    assert!(o.cleanup_files);
    assert_eq!(
        o.excluded_files,
        ".git;.gitignore;.gitattributes;.gitmodules;.DS_Store;Thumbs.db;desktop.ini"
    );
}

#[test]
fn clean_directory_plan() {
    let entry = |name: &str, is_dir: bool| DirEntry {
        path: format!("/repo/{}", name),
        name: name.to_string(),
        is_dir,
    };
    let entries = vec![
        entry(".git", true),
        entry("Addons", true),
        entry("readme.txt", false),
        entry("Thumbs.db.bak", false),
        entry(".GIT", true),
    ];
    let filters = vec![".git".to_string(), "Thumbs.db".to_string()];
    let plan = clean_directory(&entries, true, &filters);
    assert_eq!(plan.len(), 5);
    assert!(matches!(plan[0], CleanAction::Remove));
    assert!(matches!(&plan[1], CleanAction::Rename(n) if n == "addons"));
    assert!(matches!(plan[2], CleanAction::Keep));
    assert!(matches!(plan[3], CleanAction::Remove));
    assert!(matches!(&plan[4], CleanAction::Rename(n) if n == ".git"));
    let plan = clean_directory(&entries, false, &Vec::new());
    assert!(plan.iter().all(|a| matches!(a, CleanAction::Keep)));
}

#[test]
fn substring_search() {
    let chars = |s: &str| s.chars().collect::<Vec<char>>();
    assert!(has_text(&chars("hello"), &chars("ell")));
    assert!(has_text(&chars("hello"), &chars("")));
    assert!(has_text(&chars("hello"), &chars("hello")));
    assert!(has_text(&chars("hello"), &chars("lo")));
    assert!(!has_text(&chars("hello"), &chars("hellos")));
    assert!(!has_text(&chars("hello"), &chars("lol")));
}

#[test]
fn error_lines_and_exit_codes() {
    assert_eq!(
        NimbleError::PathNotFound("/x".to_string()).to_string(),
        "Path not found: /x"
    );
    assert_eq!(
        NimbleError::NetworkError("down".to_string()).to_string(),
        "Network error: down"
    );
    assert_eq!(
        NimbleError::LaunchError("no".to_string()).to_string(),
        "Launch error: no"
    );
    assert_eq!(NimbleError::Other("plain".to_string()).to_string(), "plain");
    assert_eq!(exit_code(RunEnd::Success), 0);
    assert_eq!(exit_code(RunEnd::Failure), 1);
    assert_eq!(exit_code(RunEnd::Cancelled), 2);
}

#[test]
fn duration_in_words() {
    assert_eq!(format_duration(0), "just now");
    assert_eq!(format_duration(59), "just now");
    assert_eq!(format_duration(-500), "just now");
    assert_eq!(format_duration(60), "1 minutes ago");
    assert_eq!(format_duration(3599), "59 minutes ago");
    assert_eq!(format_duration(3600), "1 hours ago");
    assert_eq!(format_duration(86399), "23 hours ago");
    assert_eq!(format_duration(86400), "1 days ago");
    assert_eq!(format_duration(86400 * 12 + 5), "12 days ago");
}

#[test]
fn mod_list_changes() {
    let m = |name: &str| nimble::repository::Mod {
        mod_name: name.to_string(),
        checksum: nimble::md5_digest::Md5Digest::default(),
        enabled: true,
    };
    let current = vec![m("@a"), m("@b")];
    assert!(!check_for_changes(&current, &vec![m("@b"), m("@a")]));
    assert!(check_for_changes(&current, &vec![m("@a")]));
    assert!(check_for_changes(&current, &vec![m("@a"), m("@c")]));
    assert!(!check_for_changes(&current, &vec![m("@a"), m("@a")]));
    assert!(!check_for_changes(&Vec::new(), &Vec::new()));
    let mut repo = nimble::repository::Repository::default();
    update_mods_list(&mut repo, vec![m("@x")]);
    assert_eq!(repo.required_mods.len(), 1);
    assert_eq!(repo.required_mods[0].mod_name, "@x");
    assert_eq!(repo.version, "1.0.0");
}

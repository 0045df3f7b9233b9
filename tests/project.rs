use narration::tts::locate::{binary_not_found, espeak_candidates, first_found, koko_candidates, models_candidates};
use narration::container::{runtime_name, ContainerAction};
use narration::course::{
    canonical_source_url, hash_id, manifest_url, parse_source_url, path_segments_of, source_from_url_parts, source_id, trim_url, CourseSource,
    Manifest, ManifestDependency, ManifestStep, StepKind,
};
use narration::git::{parse_hunk_header, parse_porcelain, parse_unified_diff, ChangeKind, FileStatus, HunkRange, LineChange};
use narration::paths::{app_path_in, handhold_dir_in};
use narration::settings::{AppSettings, EditorSettings};

#[test]
fn porcelain_lines_become_entries() {
    let out = " M src/a.rs\n?? new.txt\nR  old.rs -> new.rs\nXX odd\nD  gone\nUU both\nA\n";
    let e = parse_porcelain(out);
    let got: Vec<(String, FileStatus)> = e.into_iter().map(|x| (x.path, x.status)).collect();
    assert_eq!(
        got,
        vec![
            ("src/a.rs".to_string(), FileStatus::Modified),
            ("new.txt".to_string(), FileStatus::Untracked),
            ("new.rs".to_string(), FileStatus::Renamed),
            ("gone".to_string(), FileStatus::Deleted),
            ("both".to_string(), FileStatus::Modified),
        ]
    );
}

#[test]
fn hunks_become_line_changes() {
    let diff = "diff --git a/x b/x\n@@ -1,2 +1,3 @@ fn x\n@@ -5 +4,0 @@\n@@ -0,0 +10,2 @@\n@@ bad\n";
    let c = parse_unified_diff(diff);
    let m = ChangeKind::Modified;
    assert_eq!(
        c,
        vec![
            LineChange { line: 1, kind: m },
            LineChange { line: 2, kind: m },
            LineChange { line: 3, kind: m },
            LineChange { line: 4, kind: ChangeKind::Deleted },
            LineChange { line: 10, kind: ChangeKind::Added },
            LineChange { line: 11, kind: ChangeKind::Added },
        ]
    );
}

#[test]
fn hunk_header_fields() {
    let l = b"@@ -3,4 +7 @@";
    assert_eq!(parse_hunk_header(l, 0, l.len()), Some(HunkRange { old_count: 4, new_start: 7, new_count: 1 }));
    let l = b"@@ -3 +x,1 @@";
    assert_eq!(parse_hunk_header(l, 0, l.len()), None);
    let l = b"@@ -3 +4";
    assert_eq!(parse_hunk_header(l, 0, l.len()), None);
}

fn gh(path: &str) -> CourseSource {
    CourseSource::GitHub { owner: "acme".to_string(), repo: "intro".to_string(), branch: "main".to_string(), path: path.to_string() }
}

#[test]
fn course_source_urls() {
    assert_eq!(canonical_source_url(&gh("")), "https://github.com/acme/intro");
    assert_eq!(canonical_source_url(&gh("part/one")), "https://github.com/acme/intro/part/one");
    assert_eq!(manifest_url(&gh("")), "https://raw.githubusercontent.com/acme/intro/main/handhold.yaml");
    assert_eq!(manifest_url(&gh("p")), "https://raw.githubusercontent.com/acme/intro/main/p/handhold.yaml");
    let http = CourseSource::Http { manifest_url: "https://x.org/c/handhold.yaml".to_string(), base_url: "https://x.org/c/".to_string() };
    assert_eq!(manifest_url(&http), "https://x.org/c/handhold.yaml");
    assert_eq!(canonical_source_url(&http), "https://x.org/c/handhold.yaml");
}

#[test]
fn course_ids_hash_the_canonical_url() {
    assert_eq!(hash_id("https://github.com/acme/intro"), "118f3a0e723a2ab6");
    assert_eq!(source_id(&gh("")), "118f3a0e723a2ab6");
    assert_eq!(hash_id("hello"), "2cf24dba5fb0a30e");
}

#[test]
fn manifest_picks_install_for_platform() {
    let m = Manifest {
        title: "T".to_string(),
        description: "D".to_string(),
        tags: vec!["rust".to_string()],
        steps: vec![ManifestStep { kind: StepKind::Lesson, title: "s".to_string(), path: "s.md".to_string() }],
        dependencies: vec![
            ManifestDependency {
                name: "node".to_string(),
                check: "node -v".to_string(),
                install: vec![("macos".to_string(), "brew install node".to_string()), ("linux".to_string(), "apt install nodejs".to_string())],
            },
            ManifestDependency { name: "go".to_string(), check: "go version".to_string(), install: vec![] },
        ],
    };
    let p = m.into_public("linux");
    assert_eq!(p.title, "T");
    assert_eq!(p.tags, vec!["rust".to_string()]);
    assert_eq!(p.steps.len(), 1);
    assert_eq!(p.dependencies.len(), 2);
    assert_eq!(p.dependencies[0].name, "node");
    assert_eq!(p.dependencies[0].install, Some("apt install nodejs".to_string()));
    assert_eq!(p.dependencies[1].install, None);
}

#[test]
fn settings_defaults() {
    let e = EditorSettings::default();
    assert!(!e.vim_mode && e.ligatures && e.word_wrap && e.bracket_colors && !e.auto_save);
    assert_eq!((e.font_size, e.tab_size, e.auto_save_delay), (14, 2, 1000));
    assert_eq!(e.line_numbers, "on");
    let a = AppSettings::default();
    assert_eq!(a.sidebar_panel, "explorer");
    assert!(!a.sidebar_collapsed && !a.suppress_close_confirm);
}

#[test]
fn app_paths_under_home() {
    assert_eq!(handhold_dir_in(Some("/home/u".to_string())), "/home/u/.handhold");
    assert_eq!(handhold_dir_in(Some("/".to_string())), "/.handhold");
    assert_eq!(handhold_dir_in(None), "./.handhold");
    assert_eq!(app_path_in(Some("/home/u".to_string()), "courses"), "/home/u/.handhold/courses");
    assert!(narration::paths::settings_path().ends_with("/.handhold/settings.json"));
}

#[test]
fn container_helpers() {
    assert_eq!(ContainerAction::Restart.as_str(), "restart");
    assert_eq!(ContainerAction::Start.as_str(), "start");
    assert_eq!(runtime_name("/opt/podman/bin/podman"), "podman");
    assert_eq!(runtime_name("/usr/bin/docker"), "docker");
    assert_eq!(runtime_name("pod"), "docker");
}

#[test]
fn engine_candidates_in_search_order() {
    let c = koko_candidates("/dev/app", Some("/opt/app/bin".to_string()), "x86_64-linux", "");
    assert_eq!(c, vec!["/dev/app/binaries/koko-x86_64-linux", "/opt/app/bin/koko-x86_64-linux", "/opt/app/bin/koko"]);
    assert_eq!(koko_candidates("/d", None, "t", ".exe"), vec!["/d/binaries/koko-t.exe"]);
    let m = models_candidates("/d", Some("/a/MacOS".to_string()), Some("/a".to_string()));
    assert_eq!(m, vec!["/d/resources/models", "/d/resources/piper", "/a/Resources/resources/models", "/a/MacOS/resources/models"]);
    let e = espeak_candidates("/d", None, None);
    assert_eq!(e, vec!["/d/resources/piper/espeak-ng-data"]);
    assert_eq!(first_found(&[false, true, true]), Some(1));
    assert_eq!(first_found(&[false, false]), None);
    let msg = binary_not_found("t", &["/a".to_string(), "/b".to_string()]);
    assert_eq!(msg, "koko binary not found (target: t). Searched: /a, /b. Run scripts/download-sidecars.sh for this target before building.");
}

fn github(src: Option<CourseSource>) -> (String, String, String, String) {
    match src {
        Some(CourseSource::GitHub { owner, repo, branch, path }) => (owner, repo, branch, path),
        _ => panic!("expected a GitHub source"),
    }
}

#[test]
fn github_urls_name_their_repository() {
    let t = |a: &str, b: &str, c: &str, d: &str| (a.to_string(), b.to_string(), c.to_string(), d.to_string());
    assert_eq!(github(parse_source_url(" https://github.com/acme/intro.git/ ")), t("acme", "intro", "HEAD", ""));
    assert_eq!(github(parse_source_url("https://github.com/acme/intro/tree/dev/part/one")), t("acme", "intro", "dev", "part/one"));
    assert_eq!(github(parse_source_url("https://github.com/acme/intro/blob/main/c/handhold.yaml")), t("acme", "intro", "main", "c"));
    assert_eq!(github(parse_source_url("https://github.com/acme/intro/issues")), t("acme", "intro", "HEAD", ""));
    assert_eq!(
        github(parse_source_url("https://raw.githubusercontent.com/acme/intro/main/x/y/handhold.yaml")),
        t("acme", "intro", "main", "x/y")
    );
    assert!(parse_source_url("https://github.com/acme").is_none());
    assert!(parse_source_url("https://github.com/.git/x").is_none());
    assert!(parse_source_url("not a url").is_none());
}

#[test]
fn manifest_urls_elsewhere_are_http_sources() {
    match parse_source_url("https://example.org/courses/a/handhold.yaml") {
        Some(CourseSource::Http { manifest_url, base_url }) => {
            assert_eq!(manifest_url, "https://example.org/courses/a/handhold.yaml");
            assert_eq!(base_url, "https://example.org/courses/a/");
        }
        _ => panic!("expected an HTTP source"),
    }
    assert!(parse_source_url("https://example.org/courses/a").is_none());
}

#[test]
fn url_parts_helpers() {
    assert_eq!(trim_url("  https://x.org/a///  "), "https://x.org/a");
    assert_eq!(path_segments_of("/a//b/"), Some(vec!["a".to_string(), "b".to_string()]));
    assert_eq!(path_segments_of("a/b"), None);
    assert_eq!(path_segments_of("/"), Some(vec![]));
    let segs = vec!["o".to_string(), "r.git.git".to_string()];
    assert_eq!(github(source_from_url_parts("u", "github.com", &segs)), ("o".to_string(), "r".to_string(), "HEAD".to_string(), String::new()));
    assert!(source_from_url_parts("u", "gitlab.com", &segs).is_none());
}

#[test]
fn login_shell_environment_is_read_from_markers() {
    let out = "motd line\n__PATH=/usr/bin:/bin\n__HOME=/home/u\n__LANG=\n__USER=u\n__LOGNAME=u\n__PATH=/opt/bin\n";
    let env = narration::shell_env::parse_shell_env(out);
    assert_eq!(env.path, "/opt/bin");
    assert_eq!(env.home, "/home/u");
    assert_eq!(env.vars, vec![("USER".to_string(), "u".to_string()), ("LOGNAME".to_string(), "u".to_string())]);
    let empty = narration::shell_env::parse_shell_env("");
    assert_eq!(empty.path, "");
    let done = narration::shell_env::with_fallbacks(empty, narration::shell_env::fallback_path(), Some("/root".to_string()));
    assert_eq!(done.path, "/usr/local/bin:/usr/bin:/bin:/usr/sbin:/sbin");
    assert_eq!(done.home, "/root");
    assert!(done.vars.is_empty());
}

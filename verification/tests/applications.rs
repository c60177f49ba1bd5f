use protogen::desktop_index::{
    parse_desktop_file, parse_exec_line, pick_candidate, strip_verb, xdg_application_dirs,
    AppIndex, Candidate, DesktopFile, SIMILAR_ENOUGH,
};
use protogen::paths::{extension_of, join_path, stem_of};

fn file(path: &str, content: &str) -> DesktopFile {
    DesktopFile { path: path.to_string(), content: content.to_string() }
}

fn entry(name: &str, command: &str) -> String {
    format!("[Desktop Entry]\nType=Application\nName={name}\nExec={command}\n")
}

fn index() -> AppIndex {
    AppIndex::scan(&vec![
        file("/a/org.mozilla.firefox.desktop", &entry("Firefox", "/usr/bin/firefox %u")),
        file("/a/writer.desktop", &entry("LibreOffice Writer", "libreoffice --writer %U")),
        file("/a/kate.desktop", &entry("Kate", "kate -b %U")),
        file("/a/hidden.desktop", &format!("{}NoDisplay=true\n", entry("Zebra Helper", "zebra"))),
        file("/a/readme.txt", &entry("Not An App", "no")),
    ])
}

#[test]
fn application_directories_in_order() {
    assert_eq!(
        xdg_application_dirs(Some("/home/u"), Some("/x:/y")),
        vec![
            "/home/u/.local/share/applications",
            "/x/applications",
            "/y/applications",
            "/var/lib/flatpak/exports/share/applications",
            "/home/u/.local/share/flatpak/exports/share/applications",
        ]
    );
    assert_eq!(
        xdg_application_dirs(None, None),
        vec![
            "/usr/local/share/applications",
            "/usr/share/applications",
            "/var/lib/flatpak/exports/share/applications",
        ]
    );
}

#[test]
fn exec_lines_become_argument_vectors() {
    assert_eq!(parse_exec_line("firefox %u"), vec!["firefox"]);
    assert_eq!(parse_exec_line("\"/opt/My App/run\" --x  %F y"), vec!["/opt/My App/run", "--x", "y"]);
    assert_eq!(parse_exec_line("sh -c \"a; b | c\""), vec!["sh", "-c", "a; b | c"]);
    assert_eq!(parse_exec_line("a\"b c\"d"), vec!["ab cd"]);
    assert_eq!(parse_exec_line("\"\" x"), vec!["x"]);
    assert_eq!(parse_exec_line("viewer --file=%f"), vec!["viewer", "--file="]);
    assert_eq!(parse_exec_line("a%Ub %i \"%c\" x%%y"), vec!["ab", "x%%y"]);
    assert_eq!(parse_exec_line("x %abc 100% %"), vec!["x", "%abc", "100%", "%"]);
    assert_eq!(parse_exec_line("r %f%F%u%U%d%D%n%N%i%c%k%v%m"), vec!["r"]);
    assert!(parse_exec_line("%U %f").is_empty());
    assert!(parse_exec_line("").is_empty());
}

#[test]
fn desktop_files_are_read() {
    let app = parse_desktop_file(
        "/usr/share/applications/org.kde.kate.desktop",
        "# c\n[Desktop Entry]\nName=Kate\nName=Second\nName[de]=K\nExec=old\nExec=/usr/bin/kate -b %U\nNoDisplay=TRUE\n\
         Type=Application\n[Desktop Action new]\nName=New\nExec=kate -n\n",
    )
    .unwrap();
    assert_eq!(app.id, "org.kde.kate");
    assert_eq!(app.name, "Kate");
    assert_eq!(app.command, vec!["/usr/bin/kate", "-b"]);
    assert_eq!(app.wm_class_guess, "kate");
    assert_eq!(app.desktop_file, "/usr/share/applications/org.kde.kate.desktop");
    assert!(app.no_display);
}

#[test]
fn the_lines_of_the_main_group_decide() {
    let read = |content: &str| parse_desktop_file("/a/x.desktop", content);
    let app = read(
        "Name=outside\n [Desktop Entry] \nName=First\nName=Second\nExec=old\nNoDisplay=true\n\
         [Other]\nName=Third\nExec=other\nType=Link\n\
         [Desktop Entry]\r\n  Exec=new --x %u\nNoDisplay=no\nType=Application",
    )
    .unwrap();
    assert_eq!(app.name, "First");
    assert_eq!(app.command, vec!["new", "--x"]);
    assert!(!app.no_display);
    assert!(read("[Desktop Entry]\nName=A\nExec=a\nExec=%f").is_none());
    assert!(read("[Desktop Entry]\nName=A\nExec=a\nType=Link").is_none());
    assert!(read("[Desktop Entry]\nExec=a").is_none());
    assert!(read("[Desktop Entry]\nName=A").is_none());
}

#[test]
fn terminal_applications_run_in_the_terminal() {
    let app =
        parse_desktop_file("/x/htop.desktop", "[Desktop Entry]\nName=Htop\nExec=htop\nTerminal=true\n")
            .unwrap();
    assert_eq!(app.command, vec!["xdg-terminal-exec", "htop"]);
    assert_eq!(app.wm_class_guess, "xdg-terminal-exec");
}

#[test]
fn files_that_are_no_applications() {
    let none = [
        "",
        "[Desktop Entry]\nName=A\n",
        "[Desktop Entry]\nExec=a\n",
        "[Desktop Entry]\nName=A\nExec=%u\n",
        "[Desktop Entry]\nType=Link\nName=A\nExec=a\n",
        "[Other]\nName=A\nExec=a\n",
    ];
    for content in none {
        assert!(parse_desktop_file("/x/a.desktop", content).is_none(), "{content:?}");
    }
}

#[test]
fn the_first_file_keeps_its_id() {
    let index = AppIndex::scan(&vec![
        file("/home/u/.local/share/applications/a.desktop", &entry("Mine", "mine")),
        file("/usr/share/applications/a.desktop", &entry("Theirs", "theirs")),
    ]);
    assert_eq!(index.all_names(), vec!["Mine"]);
    assert_eq!(index.get("a").unwrap().name, "Mine");
    assert!(index.get("b").is_none());
}

#[test]
fn names_of_all_applications() {
    assert_eq!(
        index().all_names(),
        vec!["Firefox", "LibreOffice Writer", "Kate", "Zebra Helper"]
    );
}

#[test]
fn requests_resolve_to_applications() {
    let index = index();
    let name = |q: &str| index.resolve(q).map(|a| a.name.clone());
    assert_eq!(name("open firefox"), Some("Firefox".to_string()));
    assert_eq!(name("LAUNCH Firefox"), Some("Firefox".to_string()));
    assert_eq!(name("org.mozilla.firefox"), Some("Firefox".to_string()));
    assert_eq!(name("focus kate"), Some("Kate".to_string()));
    assert_eq!(name("writer"), Some("LibreOffice Writer".to_string()));
    assert_eq!(name("libre office"), Some("LibreOffice Writer".to_string()));
    assert_eq!(name("firefix"), Some("Firefox".to_string()));
    assert_eq!(name("quux"), None);
    // Hidden applications are found by name, but not by similarity.
    assert_eq!(name("zebra helper"), Some("Zebra Helper".to_string()));
    assert_eq!(name("zebrb helpe"), None);
}

#[test]
fn generic_words_find_what_is_installed() {
    let index = index();
    let name = |q: &str| index.resolve(q).map(|a| a.name.clone());
    assert_eq!(name("the browser"), Some("Firefox".to_string()));
    assert_eq!(name("open the browser"), Some("Firefox".to_string()));
    assert_eq!(name("my web browser"), Some("Firefox".to_string()));
    assert_eq!(name("the text editor"), Some("Kate".to_string()));
    assert_eq!(name("the mail client"), None);
    assert_eq!(name("the teapot"), None);
    let chromium = AppIndex::scan(&vec![file("/a/chromium.desktop", &entry("Web", "chromium"))]);
    assert_eq!(chromium.resolve("the browser").unwrap().id, "chromium");
    let list = vec![
        candidate("a", "mail", 0.2),
        candidate("org.kde.falkon", "falkon", 0.3),
        candidate("firefox", "firefox", 0.46),
    ];
    assert_eq!(pick_candidate(&list, "the browser"), Some(2));
    assert_eq!(pick_candidate(&list, "a browser"), Some(2));
    // What is similar enough comes first, and hidden applications never do.
    let list = vec![candidate("firefox", "firefox", 0.46), candidate("b", "the browse", 0.9)];
    assert_eq!(pick_candidate(&list, "the browser"), Some(1));
    let mut hidden = vec![candidate("firefox", "firefox", 0.46)];
    hidden[0].no_display = true;
    assert_eq!(pick_candidate(&hidden, "the browser"), None);
}

#[test]
fn verbs_are_stripped() {
    assert_eq!(strip_verb("open launch start  x "), "x");
    assert_eq!(strip_verb("focus x"), "focus x");
}

fn candidate(id: &str, name: &str, score: f64) -> Candidate {
    Candidate { id: id.to_string(), name: name.to_string(), no_display: false, score: score.to_bits() }
}

#[test]
fn exact_matches_win_over_similar_ones() {
    let list = vec![
        candidate("a", "xyz", 0.99),
        candidate("b", "query", 0.8),
        candidate("query", "c", 0.1),
    ];
    assert_eq!(pick_candidate(&list, "query"), Some(2));
    let list = vec![candidate("a", "a query", 0.99), candidate("b", "query", 0.8)];
    assert_eq!(pick_candidate(&list, "query"), Some(1));
    let list = vec![candidate("a", "nothing", 0.99), candidate("b", "a query", 0.1)];
    assert_eq!(pick_candidate(&list, "query"), Some(1));
}

#[test]
fn similarity_is_the_last_resort() {
    let list = vec![candidate("a", "aaa", 0.76), candidate("b", "bbb", 0.9), candidate("c", "ccc", 0.9)];
    assert_eq!(pick_candidate(&list, "query"), Some(2));
    let list = vec![candidate("a", "aaa", 0.75)];
    assert_eq!(pick_candidate(&list, "query"), None);
    assert_eq!(SIMILAR_ENOUGH, 0.75f64.to_bits());
    assert_eq!(pick_candidate(&Vec::new(), "query"), None);
}

#[test]
fn paths_are_taken_apart_as_std_does() {
    for p in ["/a/b.desktop", "b.desktop", "/a/.hidden", "/a/b.tar.gz", "/a/..", "/", "", "a/", "/a/b.", "x"] {
        let path = std::path::Path::new(p);
        assert_eq!(stem_of(p), path.file_stem().map(|x| x.to_string_lossy().to_string()), "{p:?}");
        assert_eq!(extension_of(p), path.extension().map(|x| x.to_string_lossy().to_string()), "{p:?}");
    }
    for d in ["/a", "/a/", "", "."] {
        let expected = std::path::Path::new(d).join("x/y").to_string_lossy().to_string();
        assert_eq!(join_path(d, "x/y"), expected, "{d:?}");
    }
}

use protogen::memory::{MemoryBank, SqlWrite};
use protogen::plan::{Plan, PowerActionKind, Step, StepKind};

fn s(t: &str) -> String {
    t.to_string()
}

fn plan(id: &str, reply: &str) -> Plan {
    Plan {
        id: s(id),
        thinking: s(""),
        reply: s(reply),
        steps: vec![Step {
            kind: StepKind::PowerAction { action: PowerActionKind::Reboot },
            description: s("Reboot the machine"),
        }],
        requires_confirmation: true,
    }
}

fn remember(bank: &mut MemoryBank, phrase: &str, plan: &Plan) {
    for write in MemoryBank::remember(&vec![s(phrase)], plan) {
        assert!(bank.apply(&write));
    }
}

fn reply(bank: &MemoryBank, phrase: &str) -> Option<String> {
    bank.lookup_phrase(phrase).unwrap().map(|r| r.plan.reply)
}

#[test]
fn phrases_are_normalized() {
    assert_eq!(MemoryBank::normalize("  Install   HYPRLAND\tnow\n"), "install hyprland now");
    assert_eq!(MemoryBank::normalize(""), "");
    assert_eq!(MemoryBank::normalize("GR\u{dc}N \u{3000} x"), "gr\u{fc}n x");
    let norm = MemoryBank::normalize("A  b C");
    assert_eq!(MemoryBank::normalize(&norm), norm);
}

#[test]
fn a_remembered_plan_is_found_again() {
    let mut bank = MemoryBank::new();
    assert_eq!(reply(&bank, "reboot"), None);
    remember(&mut bank, "Install Hyprland and  reboot", &plan("1", "one"));
    assert_eq!(reply(&bank, "install hyprland and reboot"), Some(s("one")));
    assert_eq!(reply(&bank, " INSTALL hyprland and reboot "), Some(s("one")));
    assert_eq!(reply(&bank, "install hyprland"), None);
    remember(&mut bank, "other", &plan("2", "two"));
    assert_eq!(reply(&bank, "install hyprland and reboot"), Some(s("one")));
    remember(&mut bank, "other", &plan("3", "three"));
    assert_eq!(reply(&bank, "other"), Some(s("three")));
    let mut phrases = bank.all_phrases();
    phrases.sort();
    assert_eq!(phrases, vec!["install hyprland and reboot", "other"]);
}

#[test]
fn storing_a_plan_again_replaces_it() {
    let mut bank = MemoryBank::new();
    remember(&mut bank, "a", &plan("1", "old"));
    remember(&mut bank, "b", &plan("1", "new"));
    assert_eq!(reply(&bank, "a"), Some(s("new")));
    assert_eq!(reply(&bank, "b"), Some(s("new")));
}

#[test]
fn a_forgotten_phrase_is_gone() {
    let mut bank = MemoryBank::new();
    remember(&mut bank, "a b", &plan("1", "one"));
    remember(&mut bank, "c", &plan("1", "one"));
    assert!(bank.apply(&MemoryBank::forget("A   B")));
    assert_eq!(reply(&bank, "a b"), None);
    assert_eq!(reply(&bank, "c"), Some(s("one")));
    assert!(!bank.apply(&MemoryBank::forget("a b")));
}

#[test]
fn looking_up_counts_the_use() {
    let mut bank = MemoryBank::new();
    remember(&mut bank, "a", &plan("1", "one"));
    let recall = bank.lookup_phrase_at(" A ", "2024-01-01T00:00:00+00:00").unwrap().unwrap();
    match &recall.write {
        SqlWrite::CountUse { at, phrase } => {
            assert_eq!(at, "2024-01-01T00:00:00+00:00");
            assert_eq!(phrase, "a");
        }
        _ => panic!("not counted"),
    }
    assert!(bank.apply(&recall.write));
    assert_eq!(reply(&bank, "a"), Some(s("one")));
    let recall = bank.lookup_phrase("a").unwrap().unwrap();
    match recall.write {
        SqlWrite::CountUse { at, .. } => {
            assert!(at.ends_with("+00:00"), "{at}");
            assert!(at.len() >= 25);
            assert_eq!(&at[10..11], "T");
        }
        _ => panic!("not counted"),
    }
}

#[test]
fn what_is_no_plan_is_an_error() {
    let mut bank = MemoryBank::new();
    bank.store_intent("1", Err(s("expected value at line 1 column 1")));
    assert!(bank.apply(&SqlWrite::StorePhrase { phrase: s("a"), intent_id: s("1") }));
    assert_eq!(
        bank.lookup_phrase("a").err(),
        Some(s("expected value at line 1 column 1"))
    );
    // A phrase whose intent is missing leads nowhere.
    assert!(bank.apply(&SqlWrite::StorePhrase { phrase: s("b"), intent_id: s("9") }));
    assert_eq!(reply(&bank, "b"), None);
    assert!(!bank.apply(&SqlWrite::CountUse { at: s(""), phrase: s("b") }));
}

#[test]
fn changes_are_statements() {
    let writes = MemoryBank::remember_at(&vec![s("A B"), s("c")], &plan("1", "one"), "now");
    assert_eq!(writes.len(), 3);
    match &writes[0] {
        SqlWrite::StorePlan { created_at, plan } => {
            assert_eq!(created_at, "now");
            assert_eq!(plan.id, "1");
        }
        _ => panic!("no plan"),
    }
    match &writes[1] {
        SqlWrite::StorePhrase { phrase, intent_id } => {
            assert_eq!((phrase.as_str(), intent_id.as_str()), ("a b", "1"))
        }
        _ => panic!("no phrase"),
    }
    assert!(writes[0].statement().starts_with("INSERT INTO intents"));
    assert_eq!(
        writes[1].statement(),
        "INSERT OR REPLACE INTO phrases (phrase, intent_id) VALUES (?1, ?2)"
    );
    assert_eq!(
        MemoryBank::forget("x").statement(),
        "DELETE FROM phrases WHERE phrase = ?1"
    );
}

const SCHEMA: &str = "CREATE TABLE intents (id TEXT PRIMARY KEY, created_at TEXT NOT NULL, \
     plan_json TEXT NOT NULL, use_count INTEGER NOT NULL DEFAULT 0, last_used_at TEXT); \
     CREATE TABLE phrases (phrase TEXT PRIMARY KEY, \
     intent_id TEXT NOT NULL REFERENCES intents(id) ON DELETE CASCADE);";

fn execute(conn: &rusqlite::Connection, write: &SqlWrite) -> usize {
    let sql = write.statement();
    match write {
        SqlWrite::StorePlan { created_at, plan } => {
            conn.execute(sql, (&plan.id, created_at, &plan.reply)).unwrap()
        }
        SqlWrite::StorePhrase { phrase, intent_id } => {
            conn.execute(sql, (phrase, intent_id)).unwrap()
        }
        SqlWrite::CountUse { at, phrase } => conn.execute(sql, (at, phrase)).unwrap(),
        SqlWrite::DeletePhrase { phrase } => conn.execute(sql, [phrase]).unwrap(),
    }
}

fn stored_reply(conn: &rusqlite::Connection, phrase: &str) -> Option<String> {
    conn.query_row(
        "SELECT i.plan_json FROM phrases p JOIN intents i ON i.id = p.intent_id WHERE p.phrase = ?1",
        [MemoryBank::normalize(phrase)],
        |row| row.get(0),
    )
    .ok()
}

#[test]
fn the_database_agrees_with_the_bank() {
    let conn = rusqlite::Connection::open_in_memory().unwrap();
    conn.execute_batch(SCHEMA).unwrap();
    let mut bank = MemoryBank::new();
    let mut writes = Vec::new();
    writes.extend(MemoryBank::remember(&vec![s("A"), s("b")], &plan("1", "one")));
    writes.extend(MemoryBank::remember(&vec![s("b")], &plan("2", "two")));
    writes.push(SqlWrite::CountUse { at: s("t"), phrase: s("b") });
    writes.push(SqlWrite::CountUse { at: s("t"), phrase: s("zzz") });
    writes.extend(MemoryBank::remember(&vec![s("c")], &plan("1", "one again")));
    writes.push(MemoryBank::forget("A"));
    writes.push(MemoryBank::forget("never"));
    for write in &writes {
        let rows = execute(&conn, write);
        assert_eq!(bank.apply(write), rows > 0);
        for phrase in ["a", "b", "c", "never", "zzz"] {
            assert_eq!(stored_reply(&conn, phrase), reply(&bank, phrase));
        }
    }
    let (count, created): (i64, String) = conn
        .query_row("SELECT use_count, last_used_at FROM intents WHERE id = '2'", [], |r| {
            Ok((r.get(0)?, r.get(1)?))
        })
        .unwrap();
    assert_eq!((count, created.as_str()), (1, "t"));
}

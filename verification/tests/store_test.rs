use pastebin::model::{AppError, MimeKind, Paste, Uuid};
use pastebin::store::PasteStore;

fn create_empty_store(max_pastes: usize) -> PasteStore {
    PasteStore::new(max_pastes)
}

fn create_test_paste() -> Paste {
    let id = Uuid::new_v4();
    Paste {
        id,
        name: format!("Pepa - {}", id.to_string()),
        content: Vec::new(),
        mimetype: MimeKind::PlainText,
        hits: 0,
        last_seen_tick: 0,
        file_name: None,
    }
}

#[test]
fn insert() {
    let mut paste_store = create_empty_store(5);

    let paste = create_test_paste();
    paste_store.insert(paste.name, paste.content, paste.mimetype).expect("Insert failed");

    assert_eq!(paste_store.pastes.len(), 1);
}

#[test]
fn insert_limit() {
    let mut paste_store = create_empty_store(5);
    for i in 0..5 {
        let paste = create_test_paste();
        paste_store.insert(format!("Paste {}", i), paste.content, paste.mimetype).expect("Insert failed");
    }

    assert_eq!(paste_store.pastes.len(), 5);
}

#[test]
fn store_insert_max() {
    let mut paste_store = create_empty_store(5);
    let mut first_id = Uuid::nil();

    for i in 0..6 {
        let paste = create_test_paste();
        paste_store.insert(format!("Paste {}", i), paste.content, paste.mimetype).expect("Insert failed");
        if i == 0 {
            first_id = paste_store.pastes[0].id;
        }
    }

    assert_eq!(paste_store.pastes.len(), 5);
    assert!(!paste_store.pastes.iter().any(|p| p.id == first_id), "First paste should have been evicted");
}

#[test]
fn store_decrement_cyclus() {
    let mut paste_store = create_empty_store(5);
    let mut second_id = Uuid::nil();

    for i in 0..6 {
        let paste = create_test_paste();
        paste_store.insert(format!("Paste {}", i), paste.content, paste.mimetype).expect("Insert failed");
        if i == 1 {
            second_id = paste_store.pastes[1].id;
        } else if i == 0 {
            paste_store.pastes[0].increment_hits();
            paste_store.pastes[0].increment_hits();
            println!("Incremented hits for paste 0: {}", paste_store.pastes[0].hits);
        }
    }

    assert_eq!(paste_store.pastes.len(), 5);
    assert!(!paste_store.pastes.iter().any(|p| p.id == second_id), "Second paste should have been evicted");
}

#[test]
fn store_hits_and_ticks_increment() {
    let mut paste_store = create_empty_store(5);
    let paste = create_test_paste();

    paste_store.insert(format!("Paste {}", 0), paste.content, paste.mimetype).expect("Insert failed");

    let uuid = paste_store.pastes[0].id;
    paste_store.record_view(uuid).expect("Should have increment hits and ticks & return paste");

    assert_eq!(paste_store.pastes[0].hits, 1, "Hits should have been incremented");
    assert_eq!(
        paste_store.pastes[0].last_seen_tick, 2,
        "Last seen tick should have been incremented to 2 (1 for insert, 1 for access)"
    );
}

#[test]
fn store_same_tick() {
    let paste_store = create_empty_store(5);

    let pastes = vec![create_test_paste(), create_test_paste(), create_test_paste()];

    let index = paste_store
        .find_last_seen_paste(&pastes, &Vec::new())
        .expect("Should have found a last seen paste");

    println!("Index 0 tick: {}, Index 1 tick: {}", pastes[0].last_seen_tick, pastes[1].last_seen_tick);
    assert_eq!(index, 2, "Should have returned the last index when all ticks are the same");
}

#[test]
fn store_max_paste_1() {
    let mut paste_store = create_empty_store(1);

    paste_store
        .insert(format!("Paste {}", 0), format!("Content {}", 0).into_bytes(), MimeKind::PlainText)
        .expect("Insert failed");
    paste_store
        .insert(format!("Paste {}", 1), format!("Content {}", 1).into_bytes(), MimeKind::PlainText)
        .expect("Insert failed");

    assert_eq!(paste_store.pastes.len(), 1);
}

#[test]
fn store_empty_store() {
    let mut paste_store = create_empty_store(5);

    let result = paste_store.process_full_capacity();
    assert!(matches!(result, Err(AppError::NotFound)), "Should have returned NotFound error");
}

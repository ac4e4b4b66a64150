use pastebin::markdown::StyleStore;
use pastebin::model::{MimeKind, Paste, Uuid};
use pastebin::store::PasteStore;

#[test]
fn repository_hits_and_ticks_increment() {
    let mut paste_store = PasteStore::new(5);
    let style_store = StyleStore::new();

    paste_store
        .insert(format!("Paste {}", 0), format!("Content {}", 0).into_bytes(), MimeKind::PlainText)
        .expect("Insert failed");

    let id = paste_store.pastes[0].id;
    paste_store.view_page(id, &style_store).expect("Paste processing failed");

    assert_eq!(paste_store.pastes[0].hits, 1, "Hits should have been incremented");
    assert_eq!(
        paste_store.pastes[0].last_seen_tick, 2,
        "Last seen tick should have been incremented to 2 (1 for insert, 1 for access)"
    );
}

#[test]
fn repository_max_paste_1() {
    let mut paste_store = PasteStore::new(1);

    let _ = paste_store.insert(format!("Paste {}", 0), format!("Content {}", 0).into_bytes(), MimeKind::PlainText);
    let _ = paste_store.insert(format!("Paste {}", 1), format!("Content {}", 1).into_bytes(), MimeKind::PlainText);

    assert_eq!(paste_store.pastes.len(), 1);
}

#[test]
fn repository_insert_max() {
    let mut paste_store = PasteStore::new(5);
    let mut first_id = Uuid::nil();

    for i in 0..6 {
        let _ = paste_store.insert(format!("Paste {}", i), format!("Content {}", i).into_bytes(), MimeKind::PlainText);
        if i == 0 {
            first_id = paste_store.pastes[0].id;
        }
    }

    assert_eq!(paste_store.pastes.len(), 5);
    assert!(!paste_store.pastes.iter().any(|p| p.id == first_id), "First paste should have been evicted");
}

#[test]
fn repository_decrement_cyclus() {
    let mut paste_store = PasteStore::new(5);
    let mut second_id = Uuid::nil();

    for i in 0..6 {
        let _ = paste_store.insert(format!("Paste {}", i), format!("Content {}", i).into_bytes(), MimeKind::PlainText);
        if i == 1 {
            second_id = paste_store.pastes[1].id;
        } else if i == 0 {
            paste_store.pastes[0].increment_hits();
            paste_store.pastes[0].increment_hits();
            println!("Incremented hits for paste 0: {}", paste_store.pastes[0].hits);
        }
    }

    assert_eq!(paste_store.pastes.len(), 5);
    assert!(!paste_store.pastes.iter().any(|p| p.id == second_id), "Second paste should have been evicted");
}

#[test]
fn repository_same_tick() {
    let mut paste_store = PasteStore::new(5);

    for i in 0..6 {
        if i == 0 {
            paste_store.pastes.push(Paste {
                id: Uuid::new_v4(),
                name: format!("Paste {}", i),
                content: format!("Content {}", i).into_bytes(),
                mimetype: MimeKind::PlainText,
                hits: 0,
                last_seen_tick: 0,
                file_name: None,
            });
        } else {
            let _ = paste_store.insert(format!("Paste {}", i), format!("Content {}", i).into_bytes(), MimeKind::PlainText);
        }
    }

    println!(
        "Index 0 tick: {}, Index 1 tick: {}",
        paste_store.pastes[0].last_seen_tick, paste_store.pastes[1].last_seen_tick
    );
    assert_eq!(paste_store.pastes.len(), 5);
}

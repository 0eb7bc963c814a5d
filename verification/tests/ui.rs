use hermes::models::Record;
use hermes::ui::{LiveAction, LiveEvent, Table};

fn rec(alias: &str) -> Record {
    Record {
        alias: alias.to_string(),
        secret: "S".to_string(),
        is_unencrypted: true,
        algorithm: "sha1".to_string(),
        digits: 6,
        period: 30,
        created_at: 1,
    }
}

#[test]
fn table_rewinds_by_its_lines() {
    let a = rec("a");
    let b = rec("b");
    let pass = String::new();
    let one = [&a];
    let t = Table::new(&one, &pass, true);
    assert!(t.shows_single());
    assert_eq!(t.rewind(), (1, 1));
    let two = [&a, &b];
    let t = Table::new(&two, &pass, true);
    assert!(!t.shows_single());
    assert_eq!(t.rewind(), (4, 0));
    assert_eq!(t.filtered().len(), 2);
}

#[test]
fn live_table_steps() {
    let a = rec("a");
    let b = rec("b");
    let pass = String::new();
    let two = [&a, &b];
    let t = Table::new(&two, &pass, false);
    assert_eq!(t.step(20, LiveEvent::KeyPressed), LiveAction::Exit);
    assert_eq!(t.step(20, LiveEvent::InputClosed), LiveAction::Exit);
    assert_eq!(t.step(20, LiveEvent::Tick { rem: 20 }), LiveAction::Wait);
    assert_eq!(
        t.step(20, LiveEvent::Tick { rem: 19 }),
        LiveAction::Redraw { rem: 19, up_out: 4, up_err: 0 }
    );
    let one = [&a];
    let t = Table::new(&one, &pass, true);
    assert_eq!(
        t.step(1, LiveEvent::Tick { rem: 30 }),
        LiveAction::Redraw { rem: 30, up_out: 1, up_err: 1 }
    );
}

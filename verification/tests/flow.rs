use sprinkles::db::flow::{CreateEvent, CreateFlow, CreateStep};
use sprinkles::db::intermediates::Count;

fn counted(count: u32) -> CreateEvent {
    CreateEvent::Counted(Count { count })
}

#[test]
fn new_notification_steps() {
    let mut f = CreateFlow::new(0, 2, 1);
    assert!(matches!(f.step(CreateEvent::Started), CreateStep::InsertDbusNotification { replaces_id: None }));
    assert!(matches!(f.step(CreateEvent::Executed), CreateStep::InsertAction { index: 0 }));
    assert!(matches!(f.step(CreateEvent::Executed), CreateStep::InsertAction { index: 1 }));
    assert!(matches!(f.step(CreateEvent::Executed), CreateStep::InsertHint { index: 0 }));
    assert!(matches!(f.step(CreateEvent::Executed), CreateStep::CountNotifications));
    assert!(matches!(f.step(counted(4)), CreateStep::InsertNotification));
    assert!(matches!(f.step(CreateEvent::Executed), CreateStep::Commit));
    assert!(matches!(f.step(CreateEvent::Executed), CreateStep::Finish));
    assert!(matches!(f.step(CreateEvent::Executed), CreateStep::Finish));
}

#[test]
fn replacing_notification_steps() {
    let mut f = CreateFlow::new(3, 0, 0);
    assert!(matches!(f.step(CreateEvent::Started), CreateStep::InsertDbusNotification { replaces_id: Some(3) }));
    assert!(matches!(f.step(CreateEvent::Executed), CreateStep::CountNotifications));
    assert!(matches!(f.step(counted(3)), CreateStep::SelectReplaced { id: 3 }));
    assert!(matches!(f.step(CreateEvent::Found { id: 3 }), CreateStep::CountPrevious { notification_id: 3 }));
    assert!(matches!(f.step(counted(2)), CreateStep::InsertPrevious { notification_id: 3, idx: 2 }));
    assert!(matches!(f.step(CreateEvent::Executed), CreateStep::UpdateNotification { id: 3 }));
    assert!(matches!(f.step(CreateEvent::Executed), CreateStep::Commit));
    assert!(matches!(f.step(CreateEvent::Executed), CreateStep::Finish));
}

#[test]
fn replaces_id_past_count_inserts() {
    let mut f = CreateFlow::new(5, 0, 0);
    f.step(CreateEvent::Started);
    f.step(CreateEvent::Executed);
    assert!(matches!(f.step(counted(4)), CreateStep::InsertNotification));
    let mut g = CreateFlow::new(5, 0, 0);
    g.step(CreateEvent::Started);
    g.step(CreateEvent::Executed);
    assert!(matches!(g.step(counted(0)), CreateStep::InsertNotification));
}

#[test]
fn only_hints() {
    let mut f = CreateFlow::new(0, 0, 2);
    f.step(CreateEvent::Started);
    assert!(matches!(f.step(CreateEvent::Executed), CreateStep::InsertHint { index: 0 }));
    assert!(matches!(f.step(CreateEvent::Executed), CreateStep::InsertHint { index: 1 }));
    assert!(matches!(f.step(CreateEvent::Executed), CreateStep::CountNotifications));
}

#[test]
fn unexpected_event_aborts() {
    let mut f = CreateFlow::new(0, 0, 0);
    assert!(matches!(f.step(CreateEvent::Executed), CreateStep::Abort));
    assert!(matches!(f.step(CreateEvent::Started), CreateStep::Abort));
    let mut g = CreateFlow::new(0, 0, 0);
    g.step(CreateEvent::Started);
    g.step(CreateEvent::Executed);
    assert!(matches!(g.step(CreateEvent::Executed), CreateStep::Abort));
}

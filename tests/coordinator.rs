use oasis::coordinator::{plan_transfer, TaskSlot, TaskState, Transfer};
use oasis::Error;

fn submit(slot: &mut TaskSlot, id: &str, user: i64) -> Result<String, Error> {
    slot.try_admit(id.to_string(), "a".to_string(), "b".to_string(), user, true, false)
}

#[test]
fn single_flight_admission() {
    let mut slot = TaskSlot::new();
    assert_eq!(submit(&mut slot, "t1", 7), Ok("t1".to_string()));
    assert_eq!(submit(&mut slot, "t2", 7), Err(Error::BadRequest));
    assert!(slot.is_running());
    slot.finish("t1", true);
    assert!(!slot.is_running());
    assert_eq!(submit(&mut slot, "t3", 8), Ok("t3".to_string()));
}

#[test]
fn terminal_state_is_observable_and_final() {
    let mut slot = TaskSlot::new();
    submit(&mut slot, "t1", 7).unwrap();
    slot.finish("t1", false);
    let v = slot.status("t1", 7).unwrap();
    assert_eq!(v.state, TaskState::Failed);
    slot.finish("t1", true);
    assert_eq!(slot.status("t1", 7).unwrap().state, TaskState::Failed);
}

#[test]
fn finishing_another_task_changes_nothing() {
    let mut slot = TaskSlot::new();
    submit(&mut slot, "t1", 7).unwrap();
    slot.finish("t9", true);
    assert_eq!(slot.status("t1", 7).unwrap().state, TaskState::Running);
}

#[test]
fn status_distinguishes_unknown_and_foreign() {
    let mut slot = TaskSlot::new();
    assert_eq!(slot.status("t1", 7).err(), Some(Error::NotFound));
    submit(&mut slot, "t1", 7).unwrap();
    assert_eq!(slot.status("t2", 7).err(), Some(Error::NotFound));
    assert_eq!(slot.status("t1", 8).err(), Some(Error::BadRequest));
    let v = slot.status("t1", 7).unwrap();
    assert_eq!(v.uuid, "t1");
    assert_eq!(v.source, "a");
    assert_eq!(v.target, "b");
    assert!(v.is_copy);
    assert!(!v.overwrite);
}

#[test]
fn overwrite_rule() {
    assert_eq!(plan_transfer(false, false), Transfer::Fresh);
    assert_eq!(plan_transfer(true, true), Transfer::Replace);
    assert_eq!(plan_transfer(true, false), Transfer::Abort);
}

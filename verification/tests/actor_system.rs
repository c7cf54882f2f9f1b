use alaquint_comps::actor_system::{
    after_task, ActorError, ActorsContainer, AwaitStep, ChannelContainer, TaskOutcome,
};

#[test]
fn error_descriptions() {
    assert_eq!(ActorError::SenderNotFound.description(), "Sender not found");
    assert_eq!(ActorError::SendFailed.description(), "Failed to send message");
}

#[test]
fn empty_container_has_no_sender() {
    let c: ChannelContainer<&str> = ChannelContainer::new();
    assert_eq!(c.len(), 0);
    assert!(c.get_sender(1).is_none());
    assert_eq!(c.message(1).unwrap_err(), ActorError::SenderNotFound);
    assert_eq!(c.request(1).unwrap_err(), ActorError::SenderNotFound);
    let d: ChannelContainer<&str> = ChannelContainer::default();
    assert_eq!(d.len(), 0);
}

#[test]
fn sender_read_after_write() {
    let mut c: ChannelContainer<&str> = ChannelContainer::new();
    c.add_sender(7, "motor");
    c.add_sender(9, "lidar");
    assert_eq!(c.len(), 2);
    assert_eq!(c.get_sender(7), Some(&"motor"));
    assert_eq!(c.get_sender(9), Some(&"lidar"));
    assert_eq!(c.message(7), Ok(&"motor"));
    assert_eq!(c.request(9), Ok(&"lidar"));
    assert!(c.get_sender(8).is_none());
    assert_eq!(c.message(8), Err(ActorError::SenderNotFound));
}

#[test]
fn sender_replaced_by_later_one() {
    let mut c: ChannelContainer<u32> = ChannelContainer::new();
    c.add_sender(3, 100);
    c.add_sender(3, 200);
    assert_eq!(c.len(), 1);
    assert_eq!(c.get_sender(3), Some(&200));
}

#[test]
fn actors_taken_out_for_awaiting() {
    let mut a: ActorsContainer<String> = ActorsContainer::new();
    a.add_actor(1, "motor task".to_string());
    a.add_actor(2, "lidar task".to_string());
    a.add_actor(1, "second motor task".to_string());
    assert_eq!(a.len(), 2);
    let tasks = a.take_actors();
    assert_eq!(a.len(), 0);
    assert_eq!(tasks.len(), 2);
    assert_eq!(tasks.get(&1).map(|s| s.as_str()), Some("second motor task"));
    assert_eq!(tasks.get(&2).map(|s| s.as_str()), Some("lidar task"));
    assert_eq!(a.take_actors().len(), 0);
    let d: ActorsContainer<u8> = ActorsContainer::default();
    assert_eq!(d.len(), 0);
}

#[test]
fn await_steps() {
    assert_eq!(after_task(TaskOutcome::Finished), AwaitStep::Continue);
    assert_eq!(after_task(TaskOutcome::Failed), AwaitStep::ReportAndContinue);
    assert_eq!(after_task(TaskOutcome::JoinFailed), AwaitStep::Abort);
}

use workpool::channel::Channel;
use workpool::item::WorkItem;

#[test]
fn send_then_receive_is_fifo() {
    let mut ch = Channel::new();
    ch.send(WorkItem::Task(1));
    ch.send(WorkItem::Terminate);
    ch.send(WorkItem::Task(2));
    assert_eq!(ch.len(), 3);
    assert_eq!(ch.try_receive(), Some(WorkItem::Task(1)));
    assert_eq!(ch.try_receive(), Some(WorkItem::Terminate));
    assert_eq!(ch.try_receive(), Some(WorkItem::Task(2)));
    assert_eq!(ch.try_receive(), None);
    assert_eq!(ch.len(), 0);
}

#[test]
fn empty_channel_yields_none() {
    let mut ch = Channel::new();
    assert_eq!(ch.try_receive(), None);
    assert_eq!(ch.len(), 0);
}

use replica::{DoubleBuffer, Sequenced, SharedDoubleBuffer};

#[test]
fn double_buffer_exposes_its_initial_state() {
    let buffer = DoubleBuffer::new(420);
    assert_eq!(*buffer.read(), 420);
}

#[test]
fn double_buffer_apply_changes_what_readers_see() {
    let mut buffer = DoubleBuffer::new(420);
    buffer.apply(&69);
    assert_eq!(*buffer.read(), 69);
    buffer.apply(&70);
    assert_eq!(*buffer.read(), 70);
    buffer.apply(&71);
    assert_eq!(*buffer.read(), 71);
}

#[test]
fn double_buffer_reader_sees_old_value_until_the_flip() {
    let mut buffer = DoubleBuffer::new(Sequenced::new(420));
    let update = Sequenced { value: 69, seq: 1 };

    buffer.stage(&update);
    assert_eq!(buffer.read().value, 420);
    assert_eq!(buffer.read().seq, 0);

    buffer.flip();
    assert_eq!(buffer.read().value, 69);
    assert_eq!(buffer.read().seq, 1);

    buffer.stage(&update);
    assert_eq!(buffer.read().value, 69);
    assert_eq!(buffer.read().seq, 1);

    buffer.flip();
    assert_eq!(buffer.read().value, 69);
    assert_eq!(buffer.read().seq, 1);
}

#[test]
fn double_buffer_flip_alone_changes_no_copy() {
    let mut buffer = DoubleBuffer::new(1);
    buffer.stage(&2);
    buffer.flip();
    assert_eq!(*buffer.read(), 2);
    buffer.flip();
    assert_eq!(*buffer.read(), 1);
    buffer.flip();
    assert_eq!(*buffer.read(), 2);
}

#[test]
fn double_buffer_both_copies_converge() {
    let mut buffer = DoubleBuffer::new(vec![0u8]);
    struct Push(u8);
    impl replica::Update<Vec<u8>> for Push {
        fn applied(&self, mut state: Vec<u8>) -> Vec<u8> {
            state.push(self.0);
            state
        }

        fn stamp(&self) -> Option<u64> {
            None
        }

        fn apply(&self, target: &mut Vec<u8>) {
            target.push(self.0);
        }

        fn sequence(&self) -> Option<u64> {
            None
        }
    }
    for value in 1..=5 {
        buffer.apply(&Push(value));
        assert_eq!(buffer.read().len(), value as usize + 1);
        assert_eq!(buffer.read().last(), Some(&value));
    }
    assert_eq!(*buffer.read(), vec![0, 1, 2, 3, 4, 5]);
    buffer.flip();
    assert_eq!(*buffer.read(), vec![0, 1, 2, 3, 4, 5]);
}

#[test]
fn shared_double_buffer_exposes_its_initial_state() {
    let buffer: SharedDoubleBuffer<i32, i32> = SharedDoubleBuffer::new(420);
    let reading = buffer.read();
    assert_eq!(*reading.get(), 420);
    reading.release();
}

#[test]
fn shared_double_buffer_apply_changes_what_readers_see() {
    let buffer: SharedDoubleBuffer<i32, i32> = SharedDoubleBuffer::new(420);
    for value in [69, 70, 71] {
        buffer.apply(&value);
        let reading = buffer.read();
        assert_eq!(*reading.get(), value);
        reading.release();
    }
}

#[test]
fn shared_double_buffer_serves_several_readers_at_once() {
    let buffer: SharedDoubleBuffer<Sequenced<i32>, Sequenced<i32>> =
        SharedDoubleBuffer::new(Sequenced::new(420));
    buffer.apply(&Sequenced { value: 69, seq: 1 });
    let one = buffer.read();
    let other = buffer.read();
    assert_eq!(one.get().value, 69);
    assert_eq!(other.get().seq, 1);
    one.release();
    other.release();
    buffer.apply(&Sequenced { value: 70, seq: 2 });
    let reading = buffer.read();
    assert_eq!(reading.get().value, 70);
    assert_eq!(reading.get().seq, 2);
    reading.release();
}

#[test]
fn double_buffer_apply_on_unequal_copies_updates_each() {
    let mut buffer = DoubleBuffer::new(vec![1u8]);
    struct Append(u8);
    impl replica::Update<Vec<u8>> for Append {
        fn applied(&self, mut state: Vec<u8>) -> Vec<u8> {
            state.push(self.0);
            state
        }

        fn stamp(&self) -> Option<u64> {
            None
        }

        fn apply(&self, target: &mut Vec<u8>) {
            target.push(self.0);
        }

        fn sequence(&self) -> Option<u64> {
            None
        }
    }
    buffer.stage(&Append(2));
    assert_eq!(*buffer.read(), vec![1]);
    buffer.apply(&Append(3));
    assert_eq!(*buffer.read(), vec![1, 2, 3]);
    buffer.flip();
    assert_eq!(*buffer.read(), vec![1, 3]);
}

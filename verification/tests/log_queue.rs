use tiny_kernel::logging::{add_sink, Logger, SinkEntity, SinkLog, WriteSink};
use tiny_kernel::ring_buffer::{RingBuffer, RING_CAPACITY};

#[test]
fn ring_buffer_reads_back_what_was_written_in_order() {
    let mut rb = RingBuffer::new();
    rb.push("abc");
    assert_eq!(rb.pop(), Some(b'a'));
    assert_eq!(rb.pop(), Some(b'b'));
    assert_eq!(rb.pop(), Some(b'c'));
    assert_eq!(rb.pop(), None);
}

#[test]
fn ring_buffer_empty_pop_is_none() {
    let mut rb = RingBuffer::new();
    assert_eq!(rb.pop(), None);
    assert_eq!(rb.popln(&mut [0u8; 10]), None);
}

#[test]
fn ring_buffer_drops_oldest_when_full() {
    let mut rb = RingBuffer::new();
    for i in 0..RING_CAPACITY {
        rb.push_byte((i % 251) as u8);
    }
    // capacity minus one bytes are kept: the first one written was dropped
    assert_eq!(rb.pop(), Some(1));
    let mut count = 1;
    while rb.pop().is_some() {
        count += 1;
    }
    assert_eq!(count, RING_CAPACITY - 1);
}

#[test]
fn popln_takes_one_line_with_its_newline() {
    let mut rb = RingBuffer::new();
    rb.push("first\nsecond\n");
    assert_eq!(rb.popln(&mut [0u8; 100]), Some(String::from("first\n")));
    assert_eq!(rb.popln(&mut [0u8; 100]), Some(String::from("second\n")));
    assert_eq!(rb.popln(&mut [0u8; 100]), None);
}

#[test]
fn popln_stops_at_max_len() {
    let mut rb = RingBuffer::new();
    rb.push("abcdef");
    assert_eq!(rb.popln(&mut [0u8; 4]), Some(String::from("abcd")));
    assert_eq!(rb.popln(&mut [0u8; 4]), Some(String::from("ef")));
}

#[test]
fn popln_copies_the_line_into_the_buffer() {
    let mut rb = RingBuffer::new();
    rb.push_byte(0xFF);
    rb.push_byte(b'\n');
    rb.push("ok\n");
    let mut buffer = [7u8; 5];
    assert_eq!(rb.popln(&mut buffer), None);
    assert_eq!(buffer, [0xFF, b'\n', 7, 7, 7]);
    assert_eq!(rb.popln(&mut buffer), Some(String::from("ok\n")));
    assert_eq!(buffer, [b'o', b'k', b'\n', 7, 7]);
}

#[test]
fn popln_rejects_invalid_utf8_and_drops_the_line() {
    let mut rb = RingBuffer::new();
    rb.push_byte(0xFF);
    rb.push_byte(b'\n');
    rb.push("ok\n");
    assert_eq!(rb.popln(&mut [0u8; 100]), None);
    assert_eq!(rb.popln(&mut [0u8; 100]), Some(String::from("ok\n")));
}

#[test]
fn popln_decodes_multibyte_text() {
    let mut rb = RingBuffer::new();
    rb.push("h\u{e9}\n");
    assert_eq!(rb.popln(&mut [0u8; 100]), Some(String::from("h\u{e9}\n")));
}

struct Recorder {
    id: usize,
    lines: Vec<String>,
    log: SinkLog,
}

impl SinkEntity for Recorder {
    fn sink_id(&self) -> usize {
        self.id
    }

    fn get_id(&self) -> usize {
        self.id
    }
}

impl WriteSink for Recorder {
    fn received(&self) -> SinkLog {
        self.log
    }

    fn write_str(&mut self, s: &str) -> bool {
        self.log.note(s);
        self.lines.push(String::from(s));
        true
    }
}

fn recorder(id: usize) -> Recorder {
    Recorder { id, lines: Vec::new(), log: SinkLog::new() }
}

#[test]
fn logger_read_returns_lines_written() {
    let mut log: Logger<Recorder> = Logger::new();
    log.write_str("boot\nok\n");
    assert_eq!(log.read(), Some(String::from("boot\n")));
    assert_eq!(log.read(), Some(String::from("ok\n")));
    assert_eq!(log.read(), None);
}

#[test]
fn logger_sinks_registration() {
    let mut log: Logger<Recorder> = Logger::new();
    assert!(!log.is_sinks_inited());
    log.init_sink(recorder(1));
    add_sink(&mut log, recorder(2));
    assert!(log.is_sinks_inited());
    assert!(log.extract_sink(3).is_none());
    let s = log.extract_sink(2).unwrap();
    assert_eq!(s.id, 2);
    assert!(log.extract_sink(2).is_none());
    assert!(log.extract_sink(1).is_some());
}

#[test]
fn logger_remove_sink_drops_every_match() {
    let mut log: Logger<Recorder> = Logger::new();
    log.init_sink(recorder(1));
    log.init_sink(recorder(2));
    log.init_sink(recorder(1));
    log.remove_sink(1);
    assert!(log.extract_sink(1).is_none());
    assert!(log.extract_sink(2).is_some());
}

#[test]
fn logger_flush_hands_one_line_to_every_sink() {
    let mut log: Logger<Recorder> = Logger::new();
    log.init_sink(recorder(1));
    log.init_sink(recorder(2));
    log.write_str("a\nb\n");
    log.flush();
    let one = log.extract_sink(1).unwrap();
    let two = log.extract_sink(2).unwrap();
    assert_eq!(one.lines, vec![String::from("a\n")]);
    assert_eq!(two.lines, vec![String::from("a\n")]);
    assert_eq!(log.read(), Some(String::from("b\n")));
}

#[test]
fn logger_flush_all_empties_the_queue() {
    let mut log: Logger<Recorder> = Logger::new();
    log.init_sink(recorder(7));
    log.write_str("x\ny\nz");
    log.flush_all();
    let s = log.extract_sink(7).unwrap();
    assert_eq!(s.lines, vec![String::from("x\n"), String::from("y\n"), String::from("z")]);
    assert_eq!(log.read(), None);
}

#[test]
fn logger_flush_without_sinks_keeps_text() {
    let mut log: Logger<Recorder> = Logger::new();
    log.write_str("kept\n");
    log.flush();
    log.flush_all();
    assert_eq!(log.read(), Some(String::from("kept\n")));
}

use std::io::Write;

use zq::gzip::{gunzip_lines, DecodeError};
use zq::pipeline::{worker_threads, Pipeline};

fn gzip_bytes(text: &[u8]) -> Vec<u8> {
    let mut enc = flate2::write::GzEncoder::new(Vec::new(), flate2::Compression::default());
    enc.write_all(text).unwrap();
    enc.finish().unwrap()
}

#[test]
fn gunzip_lines_round_trip() {
    let data = gzip_bytes(b"hello\nworld\n");
    let lines = gunzip_lines(&data).unwrap();
    assert_eq!(lines, vec!["hello".to_string(), "world".to_string()]);
}

#[test]
fn gunzip_lines_handles_crlf_and_missing_final_newline() {
    let data = gzip_bytes(b"one\r\ntwo\nthree");
    let lines = gunzip_lines(&data).unwrap();
    assert_eq!(
        lines,
        vec!["one".to_string(), "two".to_string(), "three".to_string()]
    );
}

#[test]
fn gunzip_lines_keeps_interior_empty_lines() {
    let data = gzip_bytes(b"a\n\nb\n");
    let lines = gunzip_lines(&data).unwrap();
    assert_eq!(lines, vec!["a".to_string(), "".to_string(), "b".to_string()]);
}

#[test]
fn corrupt_stream_is_fatal() {
    let garbage = vec![1u8, 2, 3, 4, 5];
    assert_eq!(gunzip_lines(&garbage), Err(DecodeError::Corrupt));
}

#[test]
fn non_text_line_is_fatal() {
    let data = gzip_bytes(&[0xffu8, 0xfe, 0x0a]);
    assert_eq!(gunzip_lines(&data), Err(DecodeError::NotText));
}

#[test]
fn empty_file_has_no_lines() {
    let data = gzip_bytes(b"");
    let lines = gunzip_lines(&data).unwrap();
    assert!(lines.is_empty());
}

fn file_lines(n: usize, tag: &str) -> Vec<String> {
    (0..n).map(|k| format!("{}-{}", tag, k)).collect()
}

#[test]
fn two_files_emit_all_lines_in_per_file_order() {
    let f0 = gunzip_lines(&gzip_bytes(b"a0\na1\na2\n")).unwrap();
    let f1 = gunzip_lines(&gzip_bytes(b"b0\nb1\nb2\nb3\n")).unwrap();
    assert_eq!(f0.len(), 3);
    assert_eq!(f1.len(), 4);
    let mut p = Pipeline::new(vec![f0.clone(), f1.clone()], 2);
    let mut out: Vec<String> = Vec::new();
    // Two producers race: alternate while respecting the queue's capacity.
    let mut next = 0usize;
    loop {
        let mut moved = false;
        for _ in 0..2 {
            let i = next % 2;
            next += 1;
            if p.can_enqueue(i) {
                p.enqueue(i);
                moved = true;
                break;
            }
        }
        while p.buffered() > 0 && (!moved || p.buffered() == 2) {
            out.push(p.dequeue());
            moved = true;
        }
        if !moved {
            break;
        }
    }
    assert_eq!(out.len(), 7);
    let got0: Vec<&String> = out.iter().filter(|l| l.starts_with('a')).collect();
    let got1: Vec<&String> = out.iter().filter(|l| l.starts_with('b')).collect();
    assert_eq!(got0, f0.iter().collect::<Vec<_>>());
    assert_eq!(got1, f1.iter().collect::<Vec<_>>());
}

#[test]
fn buffered_lines_never_exceed_capacity() {
    let files = vec![file_lines(50, "x"), file_lines(50, "y")];
    let mut p = Pipeline::new(files, 3);
    let mut peak = 0usize;
    let mut drained: Vec<String> = Vec::new();
    let mut step = 0usize;
    loop {
        let mut moved = false;
        if step % 3 != 2 {
            for i in 0..2 {
                if p.can_enqueue(i) {
                    p.enqueue(i);
                    moved = true;
                    break;
                }
            }
        }
        if !moved && p.buffered() > 0 {
            drained.push(p.dequeue());
            moved = true;
        }
        if p.buffered() > peak {
            peak = p.buffered();
        }
        if !moved {
            break;
        }
        step += 1;
    }
    assert_eq!(drained.len(), 100);
    assert!(peak <= 3);
}

#[test]
fn full_queue_refuses_enqueue() {
    let files = vec![file_lines(5, "z")];
    let mut p = Pipeline::new(files, 2);
    assert!(p.can_enqueue(0));
    p.enqueue(0);
    p.enqueue(0);
    assert_eq!(p.buffered(), 2);
    assert!(!p.can_enqueue(0));
    let first = p.dequeue();
    assert_eq!(first, "z-0");
    assert!(p.can_enqueue(0));
}

#[test]
fn dequeue_preserves_arrival_order() {
    let files = vec![file_lines(2, "p"), file_lines(2, "q")];
    let mut p = Pipeline::new(files, 4);
    p.enqueue(1);
    p.enqueue(0);
    p.enqueue(1);
    p.enqueue(0);
    assert_eq!(p.dequeue(), "q-0");
    assert_eq!(p.dequeue(), "p-0");
    assert_eq!(p.dequeue(), "q-1");
    assert_eq!(p.dequeue(), "p-1");
}

#[test]
fn worker_threads_reserve_one_for_the_consumer() {
    assert_eq!(worker_threads(0), 0);
    assert_eq!(worker_threads(1), 1);
    assert_eq!(worker_threads(2), 1);
    assert_eq!(worker_threads(4), 3);
}

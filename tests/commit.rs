use anki_multitool::commit::{CommitPhase, FileCommitBuffer};

fn commit_all(buffer: &mut FileCommitBuffer, out: &mut Vec<String>) {
    while let Some(line) = buffer.pending() {
        out.push(line.clone());
        buffer.mark_committed();
    }
}

#[test]
pub fn test_file_commit_buffer() {
    let mut buffer = FileCommitBuffer::new();
    for data in vec!["line1", "line2", "line3", "line4", "line5"] {
        buffer.stage(format!("prepared {data}"));
    }
    buffer.seal();
    let mut file = Vec::new();
    commit_all(&mut buffer, &mut file);

    let mut lines = file.iter();
    assert_eq!(lines.next().unwrap(), "prepared line1");
    assert_eq!(lines.next().unwrap(), "prepared line2");
    assert_eq!(lines.next().unwrap(), "prepared line3");
    assert_eq!(lines.next().unwrap(), "prepared line4");
    assert_eq!(lines.next().unwrap(), "prepared line5");
    assert_eq!(buffer.phase(), CommitPhase::Done);
}

#[test]
pub fn test_failed_file_commit_buffer() {
    let mut counter = 0u8;
    let mut buffer = FileCommitBuffer::new();
    let mut failed = false;
    for data in vec!["line1", "line2", "line3", "line4", "line5"] {
        if counter > 2 {
            buffer.fail();
            failed = true;
            break;
        }
        counter += 1;
        buffer.stage(data.to_string());
    }
    assert!(failed);
    let mut file: Vec<String> = Vec::new();
    commit_all(&mut buffer, &mut file);
    assert_eq!(file.len(), 0);
    assert_eq!(buffer.phase(), CommitPhase::Failed);
}

#[test]
fn nothing_is_handed_out_before_sealing() {
    let mut buffer = FileCommitBuffer::new();
    buffer.stage("a".to_string());
    assert!(buffer.pending().is_none());
    assert_eq!(buffer.phase(), CommitPhase::Preparing);
    buffer.seal();
    assert_eq!(buffer.pending().map(|l| l.as_str()), Some("a"));
}

#[test]
fn commit_failure_keeps_what_was_committed() {
    let mut buffer = FileCommitBuffer::new();
    for line in ["a", "b", "c"] {
        buffer.stage(line.to_string());
    }
    buffer.seal();
    assert_eq!(buffer.pending().unwrap(), "a");
    buffer.mark_committed();
    assert_eq!(buffer.pending().unwrap(), "b");
    buffer.fail();
    assert!(buffer.pending().is_none());
    assert_eq!(buffer.committed(), 1);
    assert_eq!(buffer.lines().len(), 3);
}

#[test]
fn empty_buffer_is_done_once_sealed() {
    let mut buffer = FileCommitBuffer::new();
    buffer.seal();
    assert_eq!(buffer.phase(), CommitPhase::Done);
    assert!(buffer.pending().is_none());
}

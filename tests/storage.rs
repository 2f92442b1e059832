use lakehouse::storage::{MultipartUpload, UploadAction, UploadState, DEFAULT_CHUNK_SIZE};

fn run(len: usize, chunk: usize, fail_at: Option<usize>, complete_ok: bool) -> (Vec<UploadAction>, UploadState) {
    let mut upload = MultipartUpload::new(len, chunk);
    let mut actions = Vec::new();
    let mut part = 0;
    loop {
        let action = upload.next_action();
        actions.push(action);
        match action {
            UploadAction::PutPart { .. } => {
                upload.on_part(fail_at != Some(part));
                part += 1;
            }
            UploadAction::Complete => upload.on_finish(complete_ok),
            UploadAction::Abort => upload.on_finish(true),
            UploadAction::Finished => break,
        }
    }
    (actions, upload.state)
}

#[test]
fn parts_cover_the_object_then_complete() {
    let (actions, state) = run(25, 10, None, true);
    assert_eq!(
        actions,
        vec![
            UploadAction::PutPart { start: 0, end: 10 },
            UploadAction::PutPart { start: 10, end: 20 },
            UploadAction::PutPart { start: 20, end: 25 },
            UploadAction::Complete,
            UploadAction::Finished,
        ]
    );
    assert_eq!(state, UploadState::Completed);
}

#[test]
fn exact_multiple_has_no_empty_part() {
    let (actions, _) = run(20, 10, None, true);
    assert_eq!(actions.len(), 4);
    assert_eq!(actions[1], UploadAction::PutPart { start: 10, end: 20 });
    assert_eq!(actions[2], UploadAction::Complete);
}

#[test]
fn failed_part_aborts_and_never_completes() {
    let (actions, state) = run(35, 10, Some(1), true);
    assert_eq!(
        actions,
        vec![
            UploadAction::PutPart { start: 0, end: 10 },
            UploadAction::PutPart { start: 10, end: 20 },
            UploadAction::Abort,
            UploadAction::Finished,
        ]
    );
    assert_eq!(state, UploadState::Aborted);
}

#[test]
fn failed_completion_leaves_the_upload_aborted() {
    let (_, state) = run(5, 10, None, false);
    assert_eq!(state, UploadState::Aborted);
}

#[test]
fn empty_object_completes_without_parts() {
    let (actions, state) = run(0, DEFAULT_CHUNK_SIZE, None, true);
    assert_eq!(actions, vec![UploadAction::Complete, UploadAction::Finished]);
    assert_eq!(state, UploadState::Completed);
}

#[test]
fn default_chunk_is_ten_mebibytes() {
    assert_eq!(DEFAULT_CHUNK_SIZE, 10 * 1024 * 1024);
    let (actions, _) = run(DEFAULT_CHUNK_SIZE + 1, DEFAULT_CHUNK_SIZE, None, true);
    assert_eq!(actions[1], UploadAction::PutPart { start: DEFAULT_CHUNK_SIZE, end: DEFAULT_CHUNK_SIZE + 1 });
}

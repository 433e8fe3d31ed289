use vsnapu_downloader::download::{
    compute_resume_range, first_error, sanitize_file_name, task_panicked_message, DownloadEvent,
    DownloadStage, FileDownload, NextStep, MAX_CONCURRENT_DOWNLOADS,
};

#[test]
fn compute_resume_range_no_existing_bytes_downloads_whole_file() {
    assert_eq!(compute_resume_range(0, 1000), Some((0, 999)));
}

#[test]
fn compute_resume_range_partial_existing_bytes_resumes_from_there() {
    assert_eq!(compute_resume_range(400, 1000), Some((400, 999)));
}

#[test]
fn compute_resume_range_already_complete_returns_none() {
    assert_eq!(compute_resume_range(1000, 1000), None);
}

#[test]
fn compute_resume_range_existing_bytes_exceed_total_returns_none() {
    // Defensive: a corrupted/truncated total shouldn't request a negative range.
    assert_eq!(compute_resume_range(1200, 1000), None);
}

#[test]
fn sanitize_file_name_strips_path_separators() {
    assert_eq!(sanitize_file_name("../../etc/passwd"), "passwd");
    assert_eq!(sanitize_file_name("sub\\dir\\file.jpg"), "file.jpg");
}

#[test]
fn sanitize_file_name_leaves_a_plain_name_unchanged() {
    assert_eq!(sanitize_file_name("IMG_0001.jpg"), "IMG_0001.jpg");
}

#[test]
fn sanitize_file_name_empty_input_returns_placeholder() {
    assert_eq!(sanitize_file_name(""), "download");
}

#[test]
fn compute_resume_range_of_an_empty_file_is_none() {
    assert_eq!(compute_resume_range(0, 0), None);
    assert_eq!(compute_resume_range(0, 1), Some((0, 0)));
}

#[test]
fn sanitize_file_name_with_a_trailing_separator_returns_placeholder() {
    assert_eq!(sanitize_file_name("photos/"), "download");
    assert_eq!(sanitize_file_name("a\\b/"), "download");
    assert_eq!(sanitize_file_name("dir/sub\\IMG 1.jpg"), "IMG 1.jpg");
}

#[test]
fn sanitize_file_name_is_idempotent_on_examples() {
    for name in ["../../etc/passwd", "", "x/", "IMG_0001.jpg", "a\\b\\c"] {
        let once = sanitize_file_name(name);
        assert_eq!(sanitize_file_name(&once), once);
        assert!(!once.is_empty());
        assert!(!once.contains('/') && !once.contains('\\'));
    }
}

#[test]
fn at_most_four_files_download_at_once() {
    assert_eq!(MAX_CONCURRENT_DOWNLOADS, 4);
}

#[test]
fn download_of_a_complete_file_finishes_at_once() {
    let mut dl = FileDownload::start("../x/IMG.jpg", 1000);
    assert_eq!(dl.safe_name, "IMG.jpg");
    let a = dl.step(DownloadEvent::LocalSize(1000));
    let p = a.progress.unwrap();
    assert_eq!((p.file_name.as_str(), p.bytes_downloaded, p.total_bytes, p.done), ("IMG.jpg", 1000, 1000, true));
    assert!(p.error.is_none());
    assert!(matches!(a.next, NextStep::Finish(Ok(()))));
    assert_eq!(dl.stage, DownloadStage::Finished);
}

#[test]
fn download_from_scratch_sends_no_range_header_and_streams() {
    let mut dl = FileDownload::start("IMG.jpg", 10);
    let a = dl.step(DownloadEvent::LocalSize(0));
    assert!(a.progress.is_none());
    match a.next {
        NextStep::SendRequest { range_header } => assert_eq!(range_header, None),
        other => panic!("unexpected {:?}", other),
    }
    let a = dl.step(DownloadEvent::ResponseStatus { success: true, status: "200 OK".to_string() });
    assert!(matches!(a.next, NextStep::OpenFile));
    let a = dl.step(DownloadEvent::Opened);
    assert!(matches!(a.next, NextStep::SeekTo(0)));
    let a = dl.step(DownloadEvent::Sought);
    assert!(matches!(a.next, NextStep::ReadChunk));
    let a = dl.step(DownloadEvent::ChunkWritten(6));
    let p = a.progress.unwrap();
    assert_eq!((p.bytes_downloaded, p.done), (6, false));
    let a = dl.step(DownloadEvent::ChunkWritten(4));
    assert_eq!(a.progress.unwrap().bytes_downloaded, 10);
    let a = dl.step(DownloadEvent::StreamEnded);
    let p = a.progress.unwrap();
    assert_eq!((p.bytes_downloaded, p.total_bytes, p.done), (10, 10, true));
    assert!(matches!(a.next, NextStep::Finish(Ok(()))));
}

#[test]
fn download_resumes_with_a_range_header() {
    let mut dl = FileDownload::start("IMG.jpg", 1000);
    let a = dl.step(DownloadEvent::LocalSize(400));
    match a.next {
        NextStep::SendRequest { range_header } => assert_eq!(range_header.as_deref(), Some("bytes=400-999")),
        other => panic!("unexpected {:?}", other),
    }
    dl.step(DownloadEvent::ResponseStatus { success: true, status: "206 Partial Content".to_string() });
    let a = dl.step(DownloadEvent::Opened);
    assert!(matches!(a.next, NextStep::SeekTo(400)));
    dl.step(DownloadEvent::Sought);
    let a = dl.step(DownloadEvent::ChunkWritten(100));
    assert_eq!(a.progress.unwrap().bytes_downloaded, 500);
}

fn expect_failure(a: vsnapu_downloader::download::DownloadAction, bytes: u64, message: &str) {
    let p = a.progress.unwrap();
    assert_eq!(p.bytes_downloaded, bytes);
    assert!(p.done);
    assert_eq!(p.error.as_deref(), Some(message));
    match a.next {
        NextStep::Finish(Err(e)) => assert_eq!(e, message),
        other => panic!("unexpected {:?}", other),
    }
}

#[test]
fn download_failures_are_reported_with_their_messages() {
    let mut dl = FileDownload::start("IMG.jpg", 1000);
    dl.step(DownloadEvent::LocalSize(300));
    expect_failure(dl.step(DownloadEvent::RequestFailed("timed out".to_string())), 300, "Download failed for IMG.jpg: timed out");
    assert_eq!(dl.stage, DownloadStage::Finished);

    let mut dl = FileDownload::start("IMG.jpg", 1000);
    dl.step(DownloadEvent::LocalSize(300));
    expect_failure(
        dl.step(DownloadEvent::ResponseStatus { success: false, status: "404 Not Found".to_string() }),
        300,
        "Download failed for IMG.jpg: HTTP 404 Not Found",
    );

    let mut dl = FileDownload::start("IMG.jpg", 1000);
    dl.step(DownloadEvent::LocalSize(0));
    dl.step(DownloadEvent::ResponseStatus { success: true, status: "200 OK".to_string() });
    expect_failure(dl.step(DownloadEvent::OpenFailed("denied".to_string())), 0, "Could not open IMG.jpg for writing: denied");

    let mut dl = FileDownload::start("IMG.jpg", 1000);
    dl.step(DownloadEvent::LocalSize(5));
    dl.step(DownloadEvent::ResponseStatus { success: true, status: "206".to_string() });
    dl.step(DownloadEvent::Opened);
    expect_failure(dl.step(DownloadEvent::SeekFailed("bad fd".to_string())), 5, "Could not seek in IMG.jpg: bad fd");

    let mut dl = FileDownload::start("IMG.jpg", 1000);
    dl.step(DownloadEvent::LocalSize(5));
    dl.step(DownloadEvent::ResponseStatus { success: true, status: "206".to_string() });
    dl.step(DownloadEvent::Opened);
    dl.step(DownloadEvent::Sought);
    dl.step(DownloadEvent::ChunkWritten(10));
    expect_failure(
        dl.step(DownloadEvent::ChunkFailed("reset".to_string())),
        15,
        "Connection dropped while downloading IMG.jpg: reset. Run the download again to resume.",
    );

    let mut dl = FileDownload::start("IMG.jpg", 1000);
    dl.step(DownloadEvent::LocalSize(0));
    dl.step(DownloadEvent::ResponseStatus { success: true, status: "200".to_string() });
    dl.step(DownloadEvent::Opened);
    dl.step(DownloadEvent::Sought);
    expect_failure(dl.step(DownloadEvent::WriteFailed("disk full".to_string())), 0, "Could not write IMG.jpg to disk: disk full");
}

#[test]
fn first_error_is_the_earliest_failure() {
    assert_eq!(first_error(vec![]), Ok(()));
    assert_eq!(first_error(vec![Ok(()), Ok(())]), Ok(()));
    assert_eq!(
        first_error(vec![Ok(()), Err("a".to_string()), Err("b".to_string())]),
        Err("a".to_string())
    );
    assert_eq!(
        first_error(vec![Err(task_panicked_message("boom")), Err("b".to_string())]),
        Err("Download task panicked: boom".to_string())
    );
}

#[test]
fn a_whole_run_reports_monotone_progress_and_ends_with_one_done_event() {
    let mut dl = FileDownload::start("a/b/IMG.jpg", 20);
    let events = vec![
        DownloadEvent::LocalSize(5),
        DownloadEvent::ResponseStatus { success: true, status: "206".to_string() },
        DownloadEvent::Opened,
        DownloadEvent::Sought,
        DownloadEvent::ChunkWritten(7),
        DownloadEvent::ChunkWritten(8),
        DownloadEvent::StreamEnded,
    ];
    let mut progress = Vec::new();
    let mut outcome = None;
    for event in events {
        let a = dl.step(event);
        if let Some(p) = a.progress {
            progress.push(p);
        }
        if let NextStep::Finish(r) = a.next {
            outcome = Some(r);
        }
    }
    assert_eq!(outcome, Some(Ok(())));
    assert_eq!(progress.iter().map(|p| p.bytes_downloaded).collect::<Vec<_>>(), vec![12, 20, 20]);
    assert_eq!(progress.iter().map(|p| p.done).collect::<Vec<_>>(), vec![false, false, true]);
    assert!(progress.iter().all(|p| p.file_name == "IMG.jpg" && p.total_bytes == 20 && p.error.is_none()));
}

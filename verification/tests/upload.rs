use wifimanager::http::HttpRequest;
use wifimanager::update::UpdateRequest;
use wifimanager::upload::{
    done_line, restarting_response, uploaded_response, Announcement, ReadOutcome, Upload,
    UploadPhase, OTA_BUFFER_SIZE, RESTART_DELAY_MS,
};

fn data(bytes: &[u8]) -> ReadOutcome {
    ReadOutcome::Data(bytes.to_vec())
}

fn announced(content_length: usize) -> Option<UpdateRequest> {
    Some(UpdateRequest { size: 7, crc: 8, content_length })
}

/// An upload for which the flash was opened and prepared.
fn begun(body: &[u8], content_length: usize) -> Upload {
    let mut u = Upload::new(body, announced(content_length));
    u.opened(true);
    u.begun(true);
    u
}

#[test]
fn the_last_announced_byte_completes_a_chunk() {
    let mut u = begun(b"ab", 5);
    assert_eq!(u.room(), OTA_BUFFER_SIZE - 2);
    u.read(data(b"cd"));
    assert_eq!(u.phase(), UploadPhase::Receiving);
    u.read(data(b"e"));
    assert_eq!(u.phase(), UploadPhase::Report);
    assert_eq!(u.total(), 5);
    assert_eq!(u.progress(), "PROGRESS:5,5\n");
    u.reported();
    assert_eq!(u.phase(), UploadPhase::Chunk(false));
    assert_eq!(u.chunk(), b"abcde");
    u.chunk_written(true);
    assert_eq!(u.phase(), UploadPhase::Verify(false));
    u.verified(true);
    assert_eq!(u.phase(), UploadPhase::Announce(false));
    u.announced(false);
    assert_eq!(u.phase(), UploadPhase::Restart);
}

#[test]
fn a_full_buffer_is_a_chunk() {
    let mut u = begun(b"", 10000);
    u.read(data(&vec![7; 4096]));
    assert_eq!(u.phase(), UploadPhase::Report);
    assert_eq!(u.progress(), "PROGRESS:4096,10000\n");
    u.reported();
    u.chunk_written(false);
    assert_eq!(u.phase(), UploadPhase::Receiving);
    assert_eq!(u.room(), 4096);
    assert_eq!(u.chunk(), b"");
    u.read(data(&vec![8; 4095]));
    assert_eq!(u.phase(), UploadPhase::Receiving);
    assert_eq!(u.room(), 1);
}

#[test]
fn all_announced_without_a_complete_image_is_over() {
    let mut u = begun(b"", 2);
    u.read(data(b"xyz"));
    assert_eq!(u.total(), 3);
    u.reported();
    u.chunk_written(false);
    assert_eq!(u.phase(), UploadPhase::Over);
}

#[test]
fn a_refused_image_is_over_or_goes_on() {
    let mut u = begun(b"", 2);
    u.read(data(b"xy"));
    u.reported();
    u.chunk_written(true);
    u.verified(false);
    assert_eq!(u.phase(), UploadPhase::Over);
    let mut u = begun(b"", 5000);
    u.read(data(&vec![0; 4096]));
    u.reported();
    u.chunk_written(true);
    u.verified(false);
    assert_eq!(u.phase(), UploadPhase::Receiving);
}

#[test]
fn the_end_of_the_stream_hands_over_what_is_gathered() {
    let mut u = begun(b"abc", 100);
    u.read(data(b""));
    assert_eq!(u.phase(), UploadPhase::Chunk(true));
    assert_eq!(u.chunk(), b"abc");
    assert_eq!(u.total(), 3);
    u.chunk_written(false);
    assert_eq!(u.phase(), UploadPhase::Over);
}

#[test]
fn an_announcement_that_fails_at_the_end_of_the_stream_is_a_failure() {
    for sent in [true, false] {
        let mut u = begun(b"abc", 100);
        u.read(data(b""));
        u.chunk_written(true);
        u.verified(true);
        assert_eq!(u.phase(), UploadPhase::Announce(true));
        u.announced(sent);
        let expected = if sent { UploadPhase::Restart } else { UploadPhase::Failed };
        assert_eq!(u.phase(), expected);
    }
}

#[test]
fn an_empty_stream_and_a_failed_read_are_over() {
    let mut u = begun(b"", 100);
    u.read(data(b""));
    assert_eq!(u.phase(), UploadPhase::Over);
    let mut u = begun(b"abc", 100);
    u.read(ReadOutcome::Failed);
    assert_eq!(u.phase(), UploadPhase::Over);
}

#[test]
fn nothing_announced_makes_every_read_a_chunk() {
    let mut u = begun(b"", 0);
    u.read(data(b"x"));
    assert_eq!(u.phase(), UploadPhase::Report);
    u.reported();
    u.chunk_written(false);
    assert_eq!(u.phase(), UploadPhase::Over);
}

#[test]
fn every_byte_reaches_the_flash_in_order() {
    let image: Vec<u8> = (0..20000u32).map(|i| (i % 251) as u8).collect();
    let mut u = begun(&image[..100], image.len());
    let mut flash: Vec<u8> = Vec::new();
    let mut lines: Vec<String> = Vec::new();
    let mut chunks = 0;
    let mut at = 100;
    let mut step = 1;
    loop {
        match u.phase() {
            UploadPhase::Receiving => {
                let n = step.min(u.room()).min(image.len() - at);
                u.read(data(&image[at..at + n]));
                at += n;
                step = step * 3 % 1013 + 1;
            }
            UploadPhase::Report => {
                lines.push(u.progress());
                u.reported();
            }
            UploadPhase::Chunk(_) => {
                chunks += 1;
                flash.extend_from_slice(u.chunk());
                assert_eq!(u.total(), flash.len());
                let complete = flash.len() == image.len();
                u.chunk_written(complete);
            }
            UploadPhase::Verify(_) => u.verified(true),
            UploadPhase::Announce(_) => u.announced(true),
            UploadPhase::Restart => break,
            other => panic!("{:?}", other),
        }
    }
    assert_eq!(flash, image);
    assert_eq!(lines.len(), chunks);
    assert_eq!(lines[0], "PROGRESS:4096,20000\n");
    assert_eq!(lines[chunks - 1], "PROGRESS:20000,20000\n");
}

#[test]
fn the_messages_of_an_update() {
    assert_eq!(done_line(), "DONE:OTA Update Successful. Restarting...\n");
    let r = restarting_response();
    assert_eq!((r.status, r.content_type), ("200 OK", "text/plain"));
    assert_eq!(r.body, b"OTA Update Successful. Restarting...");
    let r = uploaded_response();
    assert_eq!((r.status, r.content_type), ("200 OK", "text/html"));
    assert_eq!(r.body, b"Uploaded");
    assert_eq!(RESTART_DELAY_MS, 100);
}

#[test]
fn progress_is_reported_while_the_stream_goes_on() {
    let mut u = begun(b"", 2);
    u.read(data(b"xy"));
    assert_eq!(u.phase(), UploadPhase::Report);
    assert_eq!(u.progress(), "PROGRESS:2,2\n");
    u.reported();
    assert_eq!(u.phase(), UploadPhase::Chunk(false));
    assert_eq!(u.chunk(), b"xy");
    let mut u = begun(b"abc", 100);
    u.read(data(b""));
    assert_eq!(u.phase(), UploadPhase::Chunk(true));
}

#[test]
fn the_flash_is_opened_and_prepared_first() {
    let mut u = Upload::new(b"abc", announced(3));
    assert_eq!(u.phase(), UploadPhase::Opening);
    assert_eq!(u.image(), (7, 8));
    u.opened(true);
    assert_eq!(u.phase(), UploadPhase::Beginning);
    u.begun(true);
    assert_eq!(u.phase(), UploadPhase::Receiving);
    assert_eq!(u.chunk(), b"abc");
}

#[test]
fn a_flash_that_cannot_be_opened_or_prepared_fails_the_update() {
    let mut u = Upload::new(b"", announced(3));
    u.opened(false);
    assert_eq!(u.phase(), UploadPhase::Failed);
    let mut u = Upload::new(b"", announced(3));
    u.opened(true);
    u.begun(false);
    assert_eq!(u.phase(), UploadPhase::Failed);
}

#[test]
fn an_update_is_made_from_its_request() {
    let mut request = HttpRequest {
        method: "POST",
        path: "/update?size=5&crc=6",
        headers: b"Content-Length: 9",
        body: b"abc",
    };
    let u = Upload::for_request(&request);
    assert_eq!(u.phase(), UploadPhase::Opening);
    assert_eq!(u.image(), (5, 6));
    assert_eq!(u.chunk(), b"abc");
    assert_eq!(u.progress(), "PROGRESS:0,9\n");
    request.path = "/update";
    assert_eq!(Upload::for_request(&request).phase(), UploadPhase::Failed);
}

#[test]
fn the_closing_response_depends_on_the_outcome() {
    let mut u = begun(b"", 2);
    assert!(u.closing_response().is_none());
    u.read(ReadOutcome::Failed);
    let r = u.closing_response().unwrap();
    assert_eq!((r.status, r.content_type), ("200 OK", "text/html"));
    assert_eq!(r.body, b"Uploaded");
    let r = Upload::new(b"", None).closing_response().unwrap();
    assert_eq!((r.status, r.content_type), ("500 Internal Server Error", "text/plain"));
    assert_eq!(r.body, b"Update handler failed");
}

#[test]
fn the_announcement_depends_on_the_stream() {
    let mut u = begun(b"", 2);
    assert!(u.announcement().is_none());
    u.read(data(b"xy"));
    u.reported();
    u.chunk_written(true);
    assert!(u.announcement().is_none());
    u.verified(true);
    match u.announcement() {
        Some(Announcement::Line(line)) => assert_eq!(line, done_line()),
        _ => panic!(),
    }
    let mut u = begun(b"abc", 100);
    u.read(data(b""));
    u.chunk_written(true);
    u.verified(true);
    match u.announcement() {
        Some(Announcement::Response(r)) => {
            assert_eq!(r.status, "200 OK");
            assert_eq!(r.body, restarting_response().body);
        }
        _ => panic!(),
    }
}

use animepahe_dl::ffmpeg::ProgressLine;
use animepahe_dl::{DownloadPoll, FFMPEGInstance};

#[test]
fn output_file_joins_folder_title_and_episode() {
    assert_eq!(FFMPEGInstance::output_file("C:\\V\\", "Naruto", "12"), "C:\\V\\Naruto_12.mkv");
}

#[test]
fn arguments_copy_the_stream_into_the_file() {
    let args = FFMPEGInstance::arguments("https://x/y.m3u8", "out.mkv");
    assert_eq!(args, vec!["-hide_banner", "-y", "-i", "https://x/y.m3u8", "-c", "copy", "out.mkv"]);
}

#[test]
fn read_progress_line_sees_the_end() {
    assert!(matches!(FFMPEGInstance::read_progress_line(""), Some(ProgressLine::Finished)));
}

#[test]
fn read_progress_line_reads_the_time() {
    let line = "frame=  100 fps=25 q=-1.0 size=    1024kB time=00:01:02.50 bitrate= 134.2kbits/s\n";
    match FFMPEGInstance::read_progress_line(line) {
        Some(ProgressLine::Time(fields)) => assert_eq!(fields, vec!["00", "01", "02"]),
        _ => panic!("expected a progress report"),
    }
}

#[test]
fn read_progress_line_skips_other_lines() {
    assert!(matches!(FFMPEGInstance::read_progress_line("Input #0, hls\n"), Some(ProgressLine::Other)));
}

#[test]
fn read_progress_line_fails_on_short_reports() {
    assert!(FFMPEGInstance::read_progress_line("time=1\n").is_none());
    assert!(FFMPEGInstance::read_progress_line("a=b=c=d=e time=00:01\n").is_none());
}

#[test]
fn duration_fields_split_at_colons() {
    assert_eq!(FFMPEGInstance::duration_fields("00:23:40"), vec!["00", "23", "40"]);
    assert_eq!(FFMPEGInstance::duration_fields("23:40"), vec!["23", "40"]);
}

#[test]
fn download_poll_ends_when_every_download_is_over() {
    // Three downloads; each round polls the running list in order.
    let mut running = vec![0, 1, 2];
    let mut poll = DownloadPoll::new(3);
    // Round 1: download 0 is over; download 1 moves into its place and is skipped.
    let mut polled = Vec::new();
    let mut over_now = vec![true, false, false];
    while let Some(i) = poll.next_to_poll(running.len()) {
        polled.push(running[i]);
        if poll.record(over_now[running[i]]) {
            running.remove(i);
        }
    }
    assert_eq!(polled, vec![0, 2]);
    assert_eq!(running, vec![1, 2]);
    assert!(!poll.end_round());
    assert_eq!(poll.finished(), 1);
    assert_eq!(poll.index(), 0);
    // Round 2: both are over; the second moves into the first's place.
    over_now = vec![true, true, true];
    while let Some(i) = poll.next_to_poll(running.len()) {
        if poll.record(over_now[running[i]]) {
            running.remove(i);
        }
    }
    assert_eq!(running, vec![2]);
    assert!(!poll.end_round());
    while let Some(i) = poll.next_to_poll(running.len()) {
        if poll.record(over_now[running[i]]) {
            running.remove(i);
        }
    }
    assert!(running.is_empty());
    assert!(poll.end_round());
}

#[test]
fn download_poll_of_nothing_is_done() {
    let mut poll = DownloadPoll::new(0);
    assert_eq!(poll.next_to_poll(0), None);
    assert!(poll.end_round());
}

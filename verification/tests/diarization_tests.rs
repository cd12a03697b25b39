use meeting_agent::diarization::{diarize_endpoint, diarize_service_base, upload_file_name};
use meeting_agent::diarization::merge_speakers;

#[test]
fn merge_assigns_speaker_by_index() {
    // two transcript segments, two diarized segments with speakers 0 and 1
    let merged = merge_speakers(Some(vec![None, None]), &[0, 1]);
    let segs = merged.unwrap();
    assert_eq!(segs[0], Some(0));
    assert_eq!(segs[1], Some(1));
}

#[test]
fn merge_no_segments_leaves_transcript_unchanged() {
    let merged = merge_speakers(None, &[]);
    assert!(merged.is_none());
}

#[test]
fn merge_fewer_diarize_segments_leaves_rest_none() {
    let merged = merge_speakers(Some(vec![None, None]), &[0]);
    let segs = merged.unwrap();
    assert_eq!(segs[0], Some(0));
    assert_eq!(segs[1], None);
}

#[test]
fn merge_keeps_labels_past_the_reply() {
    let merged = merge_speakers(Some(vec![Some(7), Some(8), Some(9)]), &[1, 2, 3, 4]);
    assert_eq!(merged, Some(vec![Some(1), Some(2), Some(3)]));
    let merged = merge_speakers(Some(vec![Some(7), Some(8)]), &[]);
    assert_eq!(merged, Some(vec![Some(7), Some(8)]));
}

#[test]
fn separation_service_addresses() {
    assert_eq!(diarize_service_base("http://diarize:8001//"), "http://diarize:8001");
    assert_eq!(diarize_service_base("http://diarize:8001"), "http://diarize:8001");
    assert_eq!(diarize_endpoint("http://diarize:8001"), "http://diarize:8001/v1/diarize");
    assert_eq!(upload_file_name("/rec/standup.wav"), "standup.wav");
    assert_eq!(upload_file_name("/rec/.."), "audio.mp3");
}

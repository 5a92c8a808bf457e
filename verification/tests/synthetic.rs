use netscope::capture::LinkType;
use netscope::dissect::{dissect, State};
use netscope::synthetic::raw_frame;

#[test]
fn synthetic_frames_dissect_with_good_checksums() {
    let mut r = State::new();
    for i in [0u64, 1, 1399, 1400, 123_456] {
        let f = dissect(LinkType::ethernet(), 1, raw_frame(i), &mut r);
        assert_eq!(f.summary.protocol, "tcp", "{}", f.summary.info);
        let statuses: Vec<String> = f
            .tree
            .iter()
            .into_iter()
            .filter(|n| n.abbrev().ends_with("checksum.status"))
            .map(|n| netscope::dissect::registry::value_text(&n, &f.bytes))
            .collect();
        assert_eq!(statuses, ["Good", "Good"], "frame {i}: {}", f.summary.info);
    }
}

use s3l::sampler::{AvoidanceSampler, Probe, Verdict};

#[test]
fn unbiased_far_and_degenerate_candidates_are_kept() {
    let mut s = AvoidanceSampler::new(5);
    assert_eq!(s.judge(Probe::Unbiased), Verdict::Accept);
    assert_eq!(s.judge(Probe::Degenerate), Verdict::Accept);
    assert_eq!(s.judge(Probe::Far), Verdict::Accept);
    assert_eq!(s.judge(Probe::Near { rejected: false }), Verdict::Accept);
}

#[test]
fn rejected_candidates_are_redrawn_until_the_bound() {
    let mut s = AvoidanceSampler::new(3);
    assert_eq!(s.judge(Probe::Near { rejected: true }), Verdict::Redraw);
    assert_eq!(s.judge(Probe::Near { rejected: true }), Verdict::Redraw);
    assert_eq!(s.judge(Probe::Near { rejected: true }), Verdict::Accept);
    let mut s = AvoidanceSampler::new(1);
    assert_eq!(s.judge(Probe::Near { rejected: true }), Verdict::Accept);
}

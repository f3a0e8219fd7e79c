use audio_recorder::dsp::downmix;
use audio_recorder::dsp::resample;

#[test]
fn resample_equal_rates_is_identity() {
    let s: Vec<i32> = vec![3, -7, 1000, 0, 42];
    assert_eq!(resample(&s, 44100, 44100), s);
    assert_eq!(resample(&s, 16000, 16000), s);
    let empty: Vec<i32> = Vec::new();
    assert_eq!(resample(&empty, 8000, 8000), empty);
}

#[test]
fn resample_length_formula() {
    let s: Vec<i32> = vec![0; 1000];
    // floor(len * to / from)
    assert_eq!(resample(&s, 8000, 16000).len(), 2000);
    assert_eq!(resample(&s, 16000, 8000).len(), 500);
    assert_eq!(resample(&s, 44100, 16000).len(), 1000 * 16000 / 44100);
    assert_eq!(resample(&s, 48000, 16000).len(), 333);
    let empty: Vec<i32> = Vec::new();
    assert_eq!(resample(&empty, 44100, 16000).len(), 0);
}

#[test]
fn resample_linear_interpolation_values() {
    // Doubling the rate interpolates midpoints; past the last pair the
    // final sample is held.
    let s: Vec<i32> = vec![0, 100];
    assert_eq!(resample(&s, 8000, 16000), vec![0, 50, 100, 100]);
    let t: Vec<i32> = vec![10, 30, 50];
    assert_eq!(resample(&t, 8000, 16000), vec![10, 20, 30, 40, 50, 50]);
}

#[test]
fn resample_downsample_picks_every_other() {
    let s: Vec<i32> = vec![0, 10, 20, 30, 40, 50];
    assert_eq!(resample(&s, 16000, 8000), vec![0, 20, 40]);
}

#[test]
fn downmix_single_channel_unchanged() {
    let s: Vec<i32> = vec![5, -6, 7, 0];
    assert_eq!(downmix(&s, 1), s);
    let empty: Vec<i32> = Vec::new();
    assert_eq!(downmix(&empty, 1), empty);
}

#[test]
fn downmix_identical_channels_unchanged() {
    // N identical-valued channels downmix to that value, every frame.
    let s: Vec<i32> = vec![9, 9, 9, -4, -4, -4, 123, 123, 123];
    assert_eq!(downmix(&s, 3), vec![9, -4, 123]);
}

#[test]
fn downmix_averages_frames() {
    assert_eq!(downmix(&vec![1, 3, 5, 7], 2), vec![2, 6]);
    assert_eq!(downmix(&vec![-3, -3, -6], 3), vec![-4]);
}

#[test]
fn downmix_partial_tail_frame_divides_by_full_count() {
    // A trailing short frame is still divided by the channel count.
    assert_eq!(downmix(&vec![10, 20, 30], 2), vec![15, 15]);
}

#[test]
fn downmix_floors_negative_means() {
    // -3 / 2 floors to -2.
    assert_eq!(downmix(&vec![-1, -2], 2), vec![-2]);
}

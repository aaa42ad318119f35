use thermal_watchdog::pid::SampleWindow;
use thermal_watchdog::usage::get_cpu_stats;

#[test]
fn a_new_window_is_empty() {
    let window: SampleWindow<(f32, f32)> = SampleWindow::new(5);
    assert_eq!(window.len(), 0);
    assert!(window.samples().is_empty());
}

#[test]
fn a_window_keeps_one_sample_more_than_its_filter_points() {
    let mut window: SampleWindow<u32> = SampleWindow::new(2);
    window.push(1);
    assert_eq!(window.samples(), vec![1]);
    window.push(2);
    window.push(3);
    assert_eq!(window.samples(), vec![1, 2, 3]);
    window.push(4);
    assert_eq!(window.samples(), vec![2, 3, 4]);
    window.push(5);
    assert_eq!(window.samples(), vec![3, 4, 5]);
    assert_eq!(window.len(), 3);
    assert_eq!(window.get(0), Some(&3));
    assert_eq!(window.get(2), Some(&5));
    assert_eq!(window.get(3), None);
}

#[test]
fn a_full_window_goes_round_many_times() {
    let mut window: SampleWindow<u32> = SampleWindow::new(4);
    for n in 0..103u32 {
        window.push(n);
        let kept = window.samples();
        let first = if n >= 4 { n - 4 } else { 0 };
        let expected: Vec<u32> = (first..=n).collect();
        assert_eq!(kept, expected);
        let pairs: Vec<(u32, u32)> = expected.windows(2).map(|w| (w[0], w[1])).collect();
        assert_eq!(window.pairs(), pairs);
        assert_eq!(window.get(0), Some(&first));
        assert_eq!(window.get(kept.len()), None);
    }
}

#[test]
fn a_window_without_filter_points_keeps_the_latest_sample() {
    let mut window: SampleWindow<(f32, f32)> = SampleWindow::new(0);
    window.push((100.0, 2.0));
    window.push((100.0, 3.0));
    assert_eq!(window.samples(), vec![(100.0, 3.0)]);
}

#[test]
fn the_largest_window_drops_nothing() {
    let mut window: SampleWindow<u8> = SampleWindow::new(usize::MAX);
    for n in 0..100u8 {
        window.push(n);
    }
    assert_eq!(window.len(), 100);
    assert_eq!(window.samples()[0], 0);
}

#[test]
fn neighbouring_samples_are_paired_oldest_first() {
    let mut window: SampleWindow<(u32, i32)> = SampleWindow::new(3);
    assert_eq!(window.pairs(), vec![]);
    window.push((100, 2));
    assert_eq!(window.pairs(), vec![]);
    window.push((110, 5));
    assert_eq!(window.pairs(), vec![((100, 2), (110, 5))]);
    window.push((90, 4));
    window.push((95, 4));
    window.push((105, 7));
    assert_eq!(
        window.pairs(),
        vec![((110, 5), (90, 4)), ((90, 4), (95, 4)), ((95, 4), (105, 7))]
    );
}

#[test]
fn a_window_of_one_sample_has_no_pair() {
    let mut window: SampleWindow<(f32, f32)> = SampleWindow::new(0);
    window.push((100.0, 2.0));
    window.push((100.0, 3.0));
    assert!(window.pairs().is_empty());
}

#[test]
fn counters_are_the_first_third_and_fourth_number() {
    let text = "cpu  10132153 290696 3084719 46828483 16683 0 25195 0 175628 0\ncpu0 1 2 3 4\n";
    assert_eq!(get_cpu_stats(text), Ok((10132153, 3084719, 46828483)));
    assert_eq!(get_cpu_stats("cpu 1 2 3 4"), Ok((1, 3, 4)));
    assert_eq!(get_cpu_stats("\tcpu\t+1 2 3 4 \r\n"), Ok((1, 3, 4)));
}

#[test]
fn a_line_that_is_not_the_processor_line_gives_zeros() {
    assert_eq!(get_cpu_stats(""), Ok((0, 0, 0)));
    assert_eq!(get_cpu_stats("\ncpu 1 2 3 4\n"), Ok((0, 0, 0)));
    assert_eq!(get_cpu_stats("cpu 1 2 3\n"), Ok((0, 0, 0)));
    assert_eq!(get_cpu_stats("cpu0 1 2 3 4\n"), Ok((0, 0, 0)));
    assert_eq!(get_cpu_stats("intr 1 2 3 4 x\n"), Ok((0, 0, 0)));
    assert_eq!(get_cpu_stats("cpu a b\n"), Ok((0, 0, 0)));
}

#[test]
fn a_word_that_is_no_number_is_the_error() {
    assert_eq!(get_cpu_stats("cpu 1 2 x 4\n"), Err("x".to_string()));
    assert_eq!(get_cpu_stats("cpu 1 2 3 4 5 -6 y\n"), Err("-6".to_string()));
    assert_eq!(get_cpu_stats("cpu 1 2 3 4 99999999999999999999999\n"), Err("99999999999999999999999".to_string()));
    assert_eq!(get_cpu_stats("cpu 1.5 2 3 4\n"), Err("1.5".to_string()));
}

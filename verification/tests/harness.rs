use rust_benchs::{
    accumulate_result, get_target_string, matrix_dims_ok, output_filename, output_matrix_size,
    readout_all, readout_first10, readout_random10, render_samples, resolve_kernel, u64_to_dec,
    warmup_should_continue, KernelId,
};

#[test]
fn resolve_known_kernels() {
    assert_eq!(resolve_kernel(1, "fibonacci"), Some(KernelId::Fibonacci));
    assert_eq!(resolve_kernel(1, "eratostenes"), Some(KernelId::Eratostenes));
    assert_eq!(resolve_kernel(1, "nqueens"), Some(KernelId::Nqueens));
    assert_eq!(resolve_kernel(2, "quicksort"), Some(KernelId::Quicksort));
    assert_eq!(resolve_kernel(3, "montecarlo"), Some(KernelId::Montecarlo));
    assert_eq!(resolve_kernel(4, "matrix_multiply"), Some(KernelId::MatrixMultiply));
    assert_eq!(resolve_kernel(5, "mandelbrot"), Some(KernelId::Mandelbrot));
}

#[test]
fn resolve_unknown_name_is_skipped() {
    assert_eq!(resolve_kernel(1, "quicksort"), None);
    assert_eq!(resolve_kernel(2, "fibonacci"), None);
    assert_eq!(resolve_kernel(3, "mandelbrot"), None);
    assert_eq!(resolve_kernel(1, "fibonnaci"), None);
    assert_eq!(resolve_kernel(5, ""), None);
}

#[test]
fn resolve_unknown_tag_is_skipped() {
    assert_eq!(resolve_kernel(0, "fibonacci"), None);
    assert_eq!(resolve_kernel(6, "mandelbrot"), None);
    assert_eq!(resolve_kernel(u64::MAX, "quicksort"), None);
}

#[test]
fn warmup_caps() {
    assert!(warmup_should_continue(0, 0));
    assert!(warmup_should_continue(99, 29));
    assert!(!warmup_should_continue(100, 0));
    assert!(!warmup_should_continue(0, 30));
    assert!(!warmup_should_continue(100, 30));
}

#[test]
fn decimal_rendering() {
    assert_eq!(u64_to_dec(0), "0");
    assert_eq!(u64_to_dec(9), "9");
    assert_eq!(u64_to_dec(10), "10");
    assert_eq!(u64_to_dec(12345), "12345");
    assert_eq!(u64_to_dec(u64::MAX), "18446744073709551615");
}

#[test]
fn sample_log_rendering() {
    assert_eq!(render_samples(&vec![]), "[]");
    assert_eq!(render_samples(&vec![0]), "[0]");
    assert_eq!(render_samples(&vec![12, 5, 100]), "[12, 5, 100]");
}

#[test]
fn sample_log_one_entry_per_execution() {
    // a run of five executions serializes as a five-entry array
    let samples = vec![17, 3, 3, 980, 41];
    let line = render_samples(&samples);
    assert_eq!(line, "[17, 3, 3, 980, 41]");
    assert_eq!(line.matches(", ").count(), samples.len() - 1);
}

#[test]
fn output_filename_shape() {
    assert_eq!(
        output_filename("native", "fib20"),
        "benchmark_times_native_fib20.json"
    );
    assert_eq!(
        output_filename("wasi", "qs_rev"),
        "benchmark_times_wasi_qs_rev.json"
    );
}

#[test]
fn default_target_label() {
    assert_eq!(get_target_string(), "native");
}

#[test]
fn output_matrix_size_square() {
    assert_eq!(output_matrix_size(2, 4), 4);
    assert_eq!(output_matrix_size(3, 12), 16);
    assert_eq!(output_matrix_size(1, 5), 25);
}

#[test]
fn matrix_dims_check() {
    // the two-by-two identity-multiply descriptor shape
    assert!(matrix_dims_ok(4, 4, 4, 2));
    // second operand not square of the right side
    assert!(!matrix_dims_ok(6, 4, 9, 2));
    // output buffer too small
    assert!(!matrix_dims_ok(4, 4, 3, 2));
}

#[test]
fn accumulator_wrapping() {
    assert_eq!(accumulate_result(1, 2), 3);
    assert_eq!(accumulate_result(u32::MAX, 1), 0);
}

#[test]
fn readout_first_ten() {
    let data = vec![1, 2, 3, 4, 5, 6, 7, 8, 9, 10, 1000];
    assert_eq!(readout_first10(0, &data), 55);
    assert_eq!(readout_first10(5, &data), 60);
    let wrap = vec![i32::MAX, 1, 0, 0, 0, 0, 0, 0, 0, 0];
    assert_eq!(readout_first10(0, &wrap), i32::MIN);
}

#[test]
fn readout_of_short_buffer_takes_all() {
    // the five-element quicksort payload reads out whole
    assert_eq!(readout_first10(0, &vec![1, 2, 3, 4, 5]), 15);
    assert_eq!(readout_first10(7, &vec![]), 7);
    assert_eq!(readout_first10(-1, &vec![3]), 2);
}

#[test]
fn readout_whole_buffer() {
    assert_eq!(readout_all(4, &vec![1, 2, 3]), 10);
    assert_eq!(readout_all(0, &vec![]), 0);
    assert_eq!(readout_all(1, &vec![u32::MAX]), 0);
}

#[test]
fn readout_random_indices_stay_in_bounds() {
    let mut rng = rand::rng();
    // every element equal: whatever ten indices are drawn, the fold is fixed
    let data = vec![7u32; 3];
    assert_eq!(readout_random10(&mut rng, 0, &data), 70);
    let single = vec![5u32];
    assert_eq!(readout_random10(&mut rng, 1, &single), 51);
}

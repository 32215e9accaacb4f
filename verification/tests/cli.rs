use sponk::cli::{supported_version, worker_threads, SponkCli};

#[test]
fn explicit_thread_count_is_kept() {
    let cli = SponkCli { http_version: 1, port: 8080, concurrency: 16, threads: 4 };
    assert_eq!(worker_threads(&cli), 4);
}

#[test]
fn zero_threads_means_hardware_parallelism() {
    let cli = SponkCli { http_version: 1, port: 8080, concurrency: 16, threads: 0 };
    assert!(worker_threads(&cli) >= 1);
}

#[test]
fn only_version_one_is_supported() {
    assert!(supported_version(1));
    assert!(!supported_version(0));
    assert!(!supported_version(2));
}

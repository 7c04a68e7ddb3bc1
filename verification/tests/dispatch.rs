use pasta_msm::dispatch::{check_status, Backend, DispatchConfig, MsmContext, ACCELERATOR_THRESHOLD};
use pasta_msm::error::Error;

#[test]
fn threshold_is_two_to_the_sixteenth() {
    assert_eq!(ACCELERATOR_THRESHOLD, 1 << 16);
    assert_eq!(DispatchConfig::new(), DispatchConfig { accelerator_enabled: true, threshold: 65536 });
    assert_eq!(DispatchConfig::cpu_only(), DispatchConfig { accelerator_enabled: false, threshold: 65536 });
}

#[test]
fn small_problems_stay_on_the_cpu() {
    let config = DispatchConfig::new();
    assert_eq!(config.select_backend(true, 0), Backend::Cpu);
    assert_eq!(config.select_backend(true, 65535), Backend::Cpu);
    assert_eq!(config.select_backend(true, 65536), Backend::Accelerator);
    assert_eq!(config.select_backend(true, usize::MAX), Backend::Accelerator);
}

#[test]
fn a_missing_or_disabled_accelerator_is_never_chosen() {
    assert_eq!(DispatchConfig::new().select_backend(false, 1 << 20), Backend::Cpu);
    assert_eq!(DispatchConfig::cpu_only().select_backend(true, 1 << 20), Backend::Cpu);
    assert_eq!(DispatchConfig::cpu_only().select_backend(false, 1 << 20), Backend::Cpu);
}

#[test]
fn the_threshold_can_be_set() {
    let config = DispatchConfig { accelerator_enabled: true, threshold: 4 };
    assert_eq!(config.select_backend(true, 3), Backend::Cpu);
    assert_eq!(config.select_backend(true, 4), Backend::Accelerator);
}

#[test]
fn plan_compute_checks_the_lengths_first() {
    let config = DispatchConfig::new();
    assert_eq!(config.plan_compute(true, 1 << 16, (1 << 16) + 1), Err(Error::ShapeMismatch));
    assert_eq!(config.plan_compute(false, 3, 4), Err(Error::ShapeMismatch));
    assert_eq!(config.plan_compute(true, 1 << 16, 1 << 16), Ok(Some(Backend::Accelerator)));
    assert_eq!(config.plan_compute(false, 1 << 16, 1 << 16), Ok(Some(Backend::Cpu)));
    assert_eq!(config.plan_compute(true, 8192, 8192), Ok(Some(Backend::Cpu)));
    assert_eq!(config.plan_compute(true, 1, 1), Ok(Some(Backend::Cpu)));
    assert_eq!(DispatchConfig::cpu_only().plan_compute(true, 1 << 16, 1 << 16), Ok(Some(Backend::Cpu)));
}

#[test]
fn plan_compute_of_nothing_needs_no_backend() {
    assert_eq!(DispatchConfig::new().plan_compute(true, 0, 0), Ok(None));
    assert_eq!(DispatchConfig::cpu_only().plan_compute(false, 0, 0), Ok(None));
    let eager = DispatchConfig { accelerator_enabled: true, threshold: 0 };
    assert_eq!(eager.plan_compute(true, 0, 0), Ok(None));
    assert_eq!(eager.plan_compute(true, 1, 1), Ok(Some(Backend::Accelerator)));
    assert_eq!(eager.plan_compute(true, 0, 1), Err(Error::ShapeMismatch));
}

#[test]
fn status_zero_is_success() {
    assert_eq!(check_status(0, String::new()), Ok(()));
    assert_eq!(check_status(0, "ignored".to_string()), Ok(()));
}

#[test]
fn other_statuses_carry_code_and_message() {
    assert_eq!(
        check_status(2, "out of memory".to_string()),
        Err(Error::AcceleratorFailure { code: 2, message: "out of memory".to_string() })
    );
    assert_eq!(
        check_status(-1, String::new()),
        Err(Error::AcceleratorFailure { code: -1, message: String::new() })
    );
}

#[test]
fn init_needs_a_usable_accelerator() {
    let n = 1 << 16;
    assert!(matches!(MsmContext::init(&DispatchConfig::new(), false, n, n), Err(Error::InitializationFailed)));
    assert!(matches!(MsmContext::init(&DispatchConfig::cpu_only(), true, n, n), Err(Error::InitializationFailed)));
    // an unusable accelerator is reported before a wrong length
    assert!(matches!(MsmContext::init(&DispatchConfig::new(), false, n, n + 1), Err(Error::InitializationFailed)));
}

#[test]
fn init_needs_matching_and_enough_points() {
    let config = DispatchConfig::new();
    assert!(matches!(MsmContext::init(&config, true, 1 << 16, (1 << 16) + 1), Err(Error::ShapeMismatch)));
    assert!(matches!(MsmContext::init(&config, true, 10, 11), Err(Error::ShapeMismatch)));
    assert!(matches!(MsmContext::init(&config, true, 65535, 65535), Err(Error::InitializationFailed)));
    assert!(matches!(MsmContext::init(&config, true, 0, 0), Err(Error::InitializationFailed)));
    let context = MsmContext::init(&config, true, 65536, 65536).unwrap();
    assert_eq!(context.npoints(), 65536);
}

#[test]
fn with_checks_the_context_against_the_scalars() {
    let config = DispatchConfig::new();
    let n = 1 << 17;
    let context = MsmContext::init(&config, true, n, n).unwrap();
    assert_eq!(context.with(&config, true, n, n), Ok(()));
    assert_eq!(context.with(&config, true, n, n), Ok(()));
    assert_eq!(context.with(&config, true, n, n - 1), Err(Error::ShapeMismatch));
    assert_eq!(context.with(&config, true, n - 1, n - 1), Err(Error::ShapeMismatch));
    assert_eq!(context.with(&config, false, n, n), Err(Error::InitializationFailed));
    assert_eq!(context.with(&DispatchConfig::cpu_only(), true, n, n), Err(Error::InitializationFailed));
    assert_eq!(context.release(), n);
}

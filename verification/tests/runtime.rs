use std::sync::{Arc, Mutex};
use std::time::Duration;

use canary::runtime::app::App;
use canary::runtime::error::{CoreError, SubsystemError};
use canary::runtime::subsystem::Subsystem;

#[derive(Default)]
struct RecordingSubsystem {
    name: &'static str,
    log: Arc<Mutex<Vec<String>>>,
    fail_init: bool,
}

impl Subsystem for RecordingSubsystem {
    fn name(&self) -> &str {
        self.name
    }

    fn init(&mut self) -> Result<(), SubsystemError> {
        if self.fail_init {
            return Err(SubsystemError::new(format!("{} refused to initialize", self.name)));
        }
        self.log.lock().unwrap().push(format!("{}:init", self.name));
        Ok(())
    }

    fn tick(&mut self, _dt: Duration) {
        self.log.lock().unwrap().push(format!("{}:tick", self.name));
    }

    fn shutdown(&mut self) {
        self.log.lock().unwrap().push(format!("{}:shutdown", self.name));
    }
}

#[derive(Default)]
struct DtRecordingSubsystem {
    recorded: Arc<Mutex<Vec<Duration>>>,
}

impl Subsystem for DtRecordingSubsystem {
    fn name(&self) -> &str {
        "dt-recorder"
    }

    fn tick(&mut self, dt: Duration) {
        self.recorded.lock().unwrap().push(dt);
    }
}

/// Drives `app` the way a frame loop does, asking `should_continue`
/// before every frame and handing each frame the same `dt`.
fn run_with(app: &mut App, mut should_continue: impl FnMut() -> bool, dt: Duration) -> Result<(), CoreError> {
    let (initialized, init_result) = app.init_all();
    if init_result.is_ok() {
        while should_continue() {
            app.tick_all(dt);
        }
    }
    app.shutdown_all(initialized);
    init_result
}

#[test]
fn runs_init_tick_shutdown_in_the_right_order() {
    let log = Arc::new(Mutex::new(Vec::new()));
    let mut app = App::new();
    app.add_subsystem(RecordingSubsystem { name: "a", log: log.clone(), fail_init: false });
    app.add_subsystem(RecordingSubsystem { name: "b", log: log.clone(), fail_init: false });

    app.run_for(2, Duration::from_millis(16)).expect("both subsystems should initialize");

    let events = log.lock().unwrap().clone();
    assert_eq!(
        events,
        vec!["a:init", "b:init", "a:tick", "b:tick", "a:tick", "b:tick", "b:shutdown", "a:shutdown"]
    );
}

#[test]
fn a_failed_init_still_shuts_down_what_already_started() {
    let log = Arc::new(Mutex::new(Vec::new()));
    let mut app = App::new();
    app.add_subsystem(RecordingSubsystem { name: "a", log: log.clone(), fail_init: false });
    app.add_subsystem(RecordingSubsystem { name: "b", log: log.clone(), fail_init: true });

    let result = app.run_for(5, Duration::from_millis(16));

    assert!(result.is_err());
    let events = log.lock().unwrap().clone();
    assert_eq!(events, vec!["a:init", "a:shutdown"]);
    let message = result.unwrap_err().message();
    assert_eq!(message, "subsystem `b` failed to initialize: b refused to initialize");
}

#[test]
fn plugin_dirs_are_recorded_verbatim() {
    let mut app = App::new();
    app.add_plugin_dir("plugins");
    app.add_plugin_dir("more-plugins");
    assert_eq!(app.plugin_dirs(), &[String::from("plugins"), String::from("more-plugins")]);
}

#[test]
fn run_for_passes_the_same_fixed_dt_to_every_tick() {
    let recorded = Arc::new(Mutex::new(Vec::new()));
    let mut app = App::new();
    app.add_subsystem(DtRecordingSubsystem { recorded: recorded.clone() });

    let fixed_dt = Duration::from_millis(16);
    app.run_for(4, fixed_dt).expect("should initialize");

    let dts = recorded.lock().unwrap().clone();
    assert_eq!(dts, vec![fixed_dt; 4]);
}

#[test]
fn run_checks_should_continue_before_the_first_tick() {
    let recorded = Arc::new(Mutex::new(Vec::new()));
    let mut app = App::new();
    app.add_subsystem(DtRecordingSubsystem { recorded: recorded.clone() });

    run_with(&mut app, || false, Duration::from_millis(16)).expect("should initialize");

    assert!(recorded.lock().unwrap().is_empty(), "should_continue returning false immediately must mean zero ticks");
}

#[test]
fn run_still_shuts_down_only_what_actually_initialized() {
    let log = Arc::new(Mutex::new(Vec::new()));
    let mut app = App::new();
    app.add_subsystem(RecordingSubsystem { name: "a", log: log.clone(), fail_init: false });
    app.add_subsystem(RecordingSubsystem { name: "b", log: log.clone(), fail_init: true });

    let result = run_with(&mut app, || true, Duration::from_millis(16));

    assert!(result.is_err());
    let events = log.lock().unwrap().clone();
    assert_eq!(events, vec!["a:init", "a:shutdown"]);
}

#[test]
fn subsystem_count_and_defaults() {
    let mut app = App::default();
    assert_eq!(app.subsystem_count(), 0);
    app.add_subsystem(DtRecordingSubsystem::default()).add_subsystem(DtRecordingSubsystem::default());
    assert_eq!(app.subsystem_count(), 2);
    assert!(app.plugin_dirs().is_empty());
}

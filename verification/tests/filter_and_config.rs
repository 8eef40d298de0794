use acta::config::AsyncMode;
use acta::writer::{count_drop, should_warn_about_drops, sink_for, AsyncWriterTarget, Sink};
use acta::{Config, Filter, Level, Writer, WriterTarget};

#[test]
fn filter_from_level_has_the_level_word() {
    assert_eq!(Filter::new(Level::Debug).as_directive(), "debug");
    assert_eq!(Filter::default().as_directive(), "info");
    assert_eq!(Filter::from(Level::Off).as_directive(), "off");
}

#[test]
fn overrides_follow_the_base_in_order() {
    let mut f = Filter::from_directive("info,hyper=warn");
    f.with_target("my_crate", Level::Debug).with_target("my_crate::db", Level::Trace);
    assert_eq!(f.as_directive(), "info,hyper=warn,my_crate=debug,my_crate::db=trace");
}

#[test]
fn overriding_a_target_again_replaces_it_in_place() {
    let mut f = Filter::new(Level::Info);
    f.with_target("a", Level::Debug);
    f.with_target("b", Level::Warn);
    f.with_target("a", Level::Error);
    assert_eq!(f.as_directive(), "info,a=error,b=warn");
}

#[test]
fn removing_targets() {
    let mut f = Filter::from_directive("info,raw=trace");
    f.with_target("a", Level::Debug);
    f.with_target("b", Level::Warn);
    assert!(f.remove_target("a"));
    assert!(!f.remove_target("a"));
    assert!(!f.remove_target("raw"));
    assert_eq!(f.as_directive(), "info,raw=trace,b=warn");
    let g = f.clone();
    assert_eq!(g.as_directive(), f.as_directive());
}

#[test]
fn builder_defaults() {
    let c = Config::builder().build();
    assert_eq!(c.filter.as_directive(), "info");
    assert_eq!(c.writers.len(), 1);
    assert!(matches!(c.writers[0].target, WriterTarget::Stdout));
    let d = Config::default();
    assert_eq!(d.filter.as_directive(), "info");
    assert_eq!(d.writers.len(), 1);
}

#[test]
fn builder_choices() {
    let c = Config::builder()
        .level(Level::Trace)
        .with_writer(Writer::stderr())
        .with_writer(Writer::async_stdout())
        .build();
    assert_eq!(c.filter.as_directive(), "trace");
    assert_eq!(c.writers.len(), 2);
    assert!(matches!(c.writers[0].target, WriterTarget::Stderr));
    assert!(matches!(c.writers[1].target, WriterTarget::AsyncStdout(AsyncMode::Custom { buffer_size: 4096 })));
    let c = Config::builder().level(Level::Error).filter(Filter::from_directive("warn,x=info")).build();
    assert_eq!(c.filter.as_directive(), "warn,x=info");
}

#[test]
fn conversions_into_config() {
    let c: Config = Level::Warn.into();
    assert_eq!(c.filter.as_directive(), "warn");
    assert_eq!(c.writers.len(), 1);
    let c: Config = Filter::from_directive("debug").into();
    assert_eq!(c.filter.as_directive(), "debug");
    let c: Config = Writer::stderr().into();
    assert_eq!(c.filter.as_directive(), "info");
    assert!(matches!(c.writers[0].target, WriterTarget::Stderr));
    let c: Config = vec![Writer::stdout(), Writer::stderr()].into();
    assert_eq!(c.writers.len(), 2);
    let c: Config = Config::builder().level(Level::Debug).into();
    assert_eq!(c.filter.as_directive(), "debug");
}

#[test]
fn drop_warnings_come_at_the_first_and_every_1024th() {
    assert!(should_warn_about_drops(1));
    assert!(!should_warn_about_drops(2));
    assert!(!should_warn_about_drops(1023));
    assert!(should_warn_about_drops(1024));
    assert!(should_warn_about_drops(2048));
    assert_eq!(count_drop(0), 1);
    assert_eq!(count_drop(u64::MAX), 0);
    assert_ne!(AsyncWriterTarget::Stdout, AsyncWriterTarget::Stderr);
}

#[test]
fn last_filter_choice_wins_and_writers_keep_call_order() {
    let c = Config::builder()
        .level(Level::Warn)
        .with_writer(Writer::stderr())
        .filter(Filter::from_directive("debug,a=trace"))
        .with_writer(Writer::stdout())
        .level(Level::Error)
        .build();
    assert_eq!(c.filter.as_directive(), "error");
    assert_eq!(c.writers.len(), 2);
    assert!(matches!(c.writers[0].target, WriterTarget::Stderr));
    assert!(matches!(c.writers[1].target, WriterTarget::Stdout));
}

#[test]
fn overrides_after_calls_name_each_target_once() {
    let mut f = Filter::new(Level::Info);
    f.with_target("a", Level::Debug).with_target("b", Level::Warn).with_target("a", Level::Trace);
    f.remove_target("b");
    f.with_target("c", Level::Error);
    assert_eq!(f.as_directive(), "info,a=trace,c=error");
    assert_eq!(f.as_directive().matches("a=").count(), 1);
}

#[test]
fn each_target_writes_to_its_sink() {
    assert!(matches!(sink_for(&WriterTarget::Stdout), Sink::Stdout));
    assert!(matches!(sink_for(&WriterTarget::Stderr), Sink::Stderr));
    assert!(matches!(
        sink_for(&WriterTarget::AsyncStdout(AsyncMode::Custom { buffer_size: 8 })),
        Sink::Channel(AsyncWriterTarget::Stdout, AsyncMode::Custom { buffer_size: 8 })
    ));
    assert!(matches!(
        sink_for(&WriterTarget::AsyncStderr(AsyncMode::Native)),
        Sink::Channel(AsyncWriterTarget::Stderr, AsyncMode::Native)
    ));
    assert!(matches!(sink_for(&Writer::file("x.log").target), Sink::Discard));
}

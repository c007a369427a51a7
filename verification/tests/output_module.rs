use adsb_demod::metadata::DecoderMetaData;
use adsb_demod::output_module::{
    OutputModule, OutputModuleBuilder, OutputModuleConfig, OutputModuleManager, OutputModuleRegistry,
};
use adsb_demod::avr_output::AvrOutputBuilder;
use adsb_demod::sbs1_output::Sbs1OutputBuilder;
use adsb_demod::websocket_output::WebSocketOutputBuilder;
use std::sync::atomic::{AtomicUsize, Ordering};
use std::sync::Arc;

struct TestModule {
    name: String,
    port: u16,
    clients: usize,
    running: bool,
    fail: bool,
    sent: Arc<AtomicUsize>,
}

impl OutputModule for TestModule {
    fn name(&self) -> &str {
        &self.name
    }

    fn description(&self) -> &str {
        "test module"
    }

    fn port(&self) -> u16 {
        self.port
    }

    fn broadcast_packet(&self, _data: &[u8], _metadata: &DecoderMetaData) -> Result<(), anyhow::Error> {
        self.sent.fetch_add(1, Ordering::SeqCst);
        if self.fail {
            Err(anyhow::Error::msg("send failed"))
        } else {
            Ok(())
        }
    }

    fn client_count(&self) -> usize {
        self.clients
    }

    fn is_running(&self) -> bool {
        self.running
    }

    fn stop(&mut self) -> Result<(), anyhow::Error> {
        self.running = false;
        if self.fail {
            Err(anyhow::Error::msg("stop failed"))
        } else {
            Ok(())
        }
    }
}

fn module(name: &str, port: u16, clients: usize, fail: bool) -> TestModule {
    TestModule { name: name.to_string(), port, clients, running: true, fail, sent: Arc::new(AtomicUsize::new(0)) }
}

fn md() -> DecoderMetaData {
    DecoderMetaData {
        preamble_index: 0,
        preamble_correlation_milli: 0,
        crc_passed: true,
        timestamp_secs: 0,
        timestamp_subsec_micros: 0,
    }
}

#[test]
fn config_new_defaults() {
    let c = OutputModuleConfig::new("beast", 30005);
    assert_eq!(c.name, "beast");
    assert_eq!(c.port, 30005);
    assert_eq!(c.buffer_capacity, 1024);
    assert!(c.enabled);
    assert!(c.extra.is_empty());
    let c = c.with_buffer_capacity(16);
    assert_eq!(c.buffer_capacity, 16);
    assert_eq!(c.name, "beast");
}

#[test]
fn config_with_extra_replaces_value() {
    let c = OutputModuleConfig::new("raw", 1).with_extra("a", "1").with_extra("b", "2").with_extra("a", "3");
    assert_eq!(c.extra.len(), 2);
    let a: Vec<_> = c.extra.iter().filter(|(k, _)| k == "a").collect();
    assert_eq!(a.len(), 1);
    assert_eq!(a[0].1, "3");
    let b: Vec<_> = c.extra.iter().filter(|(k, _)| k == "b").collect();
    assert_eq!(b[0].1, "2");
}

#[test]
fn registry_register_and_lookup_lowercase() {
    let mut r: OutputModuleRegistry<Box<dyn OutputModuleBuilder>> = OutputModuleRegistry::new();
    assert!(r.available_types().is_empty());
    r.register(Box::new(AvrOutputBuilder::new()));
    r.register(Box::new(Sbs1OutputBuilder::new()));
    assert!(r.get_builder("avr").is_some());
    assert!(r.get_builder("AvR").is_some());
    assert_eq!(r.get_builder("SBS1").unwrap().default_port(), 30004);
    assert!(r.get_builder("beast").is_none());
    let mut types = r.available_types();
    types.sort();
    assert_eq!(types, vec!["avr", "sbs1"]);
}

#[test]
fn registry_register_replaces_same_type() {
    let mut r = OutputModuleRegistry::new();
    r.register(WebSocketOutputBuilder::new());
    r.register(WebSocketOutputBuilder::new());
    assert_eq!(r.available_types(), vec!["websocket"]);
    assert_eq!(r.get_builder("WEBSOCKET").unwrap().default_port(), 8080);
}

#[test]
fn registry_default_config() {
    let mut r = OutputModuleRegistry::new();
    r.register(AvrOutputBuilder::new());
    let c = r.default_config("AVR").unwrap();
    assert_eq!(c.name, "AVR");
    assert_eq!(c.port, 30003);
    assert_eq!(c.buffer_capacity, 1024);
    assert!(r.default_config("sbs1").is_none());
}

#[test]
fn registry_with_builtin_modules() {
    let r = OutputModuleRegistry::with_builtin_modules();
    let mut types = r.available_types();
    types.sort();
    assert_eq!(types, vec!["avr", "sbs1", "websocket"]);
    assert_eq!(r.get_builder("AVR").unwrap().default_port(), 30003);
    assert_eq!(r.get_builder("sbs1").unwrap().default_port(), 30004);
    assert_eq!(r.get_builder("WebSocket").unwrap().default_port(), 8080);
    assert_eq!(r.default_config("sbs1").unwrap().port, 30004);
    let d: OutputModuleRegistry<Box<dyn OutputModuleBuilder>> = Default::default();
    assert_eq!(d.available_types().len(), 3);
}

#[test]
fn registry_every_listed_type_is_found_again() {
    let r = OutputModuleRegistry::with_builtin_modules();
    for t in r.available_types() {
        assert_eq!(r.get_builder(t).unwrap().module_type(), t);
    }
}

#[test]
fn registry_builder_for_config() {
    let r = OutputModuleRegistry::with_builtin_modules();
    let b = r.builder_for(&OutputModuleConfig::new("SBS1", 1)).ok().unwrap();
    assert_eq!(b.module_type(), "sbs1");
    match r.builder_for(&OutputModuleConfig::new("Beast", 1)) {
        Ok(_) => panic!("no builder is registered for beast"),
        Err(e) => assert_eq!(e, "Unknown output module type: Beast"),
    }
}

#[test]
fn manager_counts_and_status() {
    let mut m = OutputModuleManager::new();
    assert_eq!(m.module_count(), 0);
    assert_eq!(m.total_client_count(), 0);
    m.add_module(module("beast", 30005, 2, false));
    m.add_module(module("raw", 30002, 3, true));
    assert_eq!(m.module_count(), 2);
    assert_eq!(m.total_client_count(), 5);
    assert_eq!(
        m.module_status(),
        vec![("beast".to_string(), 30005, 2, true), ("raw".to_string(), 30002, 3, true)]
    );
}

#[test]
fn manager_total_saturates() {
    let mut m = OutputModuleManager::new();
    m.add_module(module("a", 1, usize::MAX, false));
    m.add_module(module("b", 2, 1, false));
    assert_eq!(m.total_client_count(), usize::MAX);
}

#[test]
fn manager_broadcast_reaches_every_module_despite_failures() {
    let mut m = OutputModuleManager::new();
    let a = module("a", 1, 0, true);
    let b = module("b", 2, 0, false);
    let (sent_a, sent_b) = (a.sent.clone(), b.sent.clone());
    m.add_module(a);
    m.add_module(b);
    m.broadcast_to_all(&[0x8D], &md());
    assert_eq!(sent_a.load(Ordering::SeqCst), 1);
    assert_eq!(sent_b.load(Ordering::SeqCst), 1);
}

#[test]
fn manager_holds_boxed_modules() {
    let mut m: OutputModuleManager<Box<dyn OutputModule>> = OutputModuleManager::default();
    m.add_module(Box::new(module("a", 1, 4, false)));
    assert_eq!(m.total_client_count(), 4);
    assert_eq!(m.module_status(), vec![("a".to_string(), 1, 4, true)]);
}

#[test]
fn manager_stop_all_clears() {
    let mut m = OutputModuleManager::new();
    m.add_module(module("a", 1, 0, true));
    m.add_module(module("b", 2, 0, false));
    assert!(m.stop_all().is_ok());
    assert_eq!(m.module_count(), 0);
}

use dirsize_exporter::config::{
    DIRECTORY_LABEL, DIRECTORY_SIZE_HELP, DIRECTORY_SIZE_METRIC, INSTANCE_LABEL,
};
use dirsize_exporter::gauges::SizeGauges;
use dirsize_exporter::sampler::record_cycle;
use prometheus::{Encoder, GaugeVec, Registry, TextEncoder};

fn render(gauges: &SizeGauges) -> String {
    let gauge_vec = GaugeVec::new(
        prometheus::Opts::new(DIRECTORY_SIZE_METRIC, DIRECTORY_SIZE_HELP),
        &[DIRECTORY_LABEL, INSTANCE_LABEL],
    )
    .unwrap();
    let registry = Registry::new();
    registry.register(Box::new(gauge_vec.clone())).unwrap();
    for reading in gauges.readings() {
        gauge_vec
            .with_label_values(&[&reading.directory, &reading.instance])
            .set(reading.bytes as f64);
    }
    let mut buffer = Vec::new();
    TextEncoder::new().encode(&registry.gather(), &mut buffer).unwrap();
    String::from_utf8(buffer).unwrap()
}

#[test]
fn endpoint_lists_measured_directory() {
    let mut g = SizeGauges::new();
    let dirs = vec!["A".to_string(), "B".to_string()];
    record_cycle(&mut g, &dirs, &"X".to_string(), &vec![Some(100), None]);
    let text = render(&g);
    assert!(text
        .lines()
        .any(|l| l == "server_directory_size{directory=\"A\",instance=\"X\"} 100"));
    assert!(!text.contains("directory=\"B\""));
}

#[test]
fn endpoint_shows_overwritten_value() {
    let mut g = SizeGauges::new();
    let dirs = vec!["A".to_string()];
    record_cycle(&mut g, &dirs, &"X".to_string(), &vec![Some(100)]);
    record_cycle(&mut g, &dirs, &"X".to_string(), &vec![Some(300)]);
    let text = render(&g);
    assert!(text
        .lines()
        .any(|l| l == "server_directory_size{directory=\"A\",instance=\"X\"} 300"));
    assert!(!text.contains("} 100"));
}

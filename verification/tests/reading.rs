use sensorlog::metric::parse_metric_line;
use sensorlog::parser::parse_readings;
use sensorlog::reading::SensorReading;

#[test]
fn reading_is_a_metric_under_a_device() {
    let metric = parse_metric_line("in0:  +1.05 V  (min = +0.00 V)").expect("a metric line");
    let reading = SensorReading::new("nct6775-isa-0290".to_string(), metric);
    assert_eq!(reading.device(), "nct6775-isa-0290");
    assert_eq!(reading.label(), "in0");
    assert_eq!(reading.value().as_str(), "+1.05");
    assert_eq!(reading.value().unscaled(), Some(105));
    assert_eq!(reading.value().scale(), 2);
    assert_eq!(reading.units(), "V");
}

#[test]
fn reading_clone_is_the_same_reading() {
    let readings = parse_readings("chip\nfan1: 1200 RPM\n");
    assert_eq!(readings.len(), 1);
    let copy = readings[0].clone();
    assert_eq!(copy, readings[0]);
    assert_eq!(copy.device(), "chip");
    assert_eq!(copy.label(), "fan1");
    assert_eq!(copy.value().as_str(), "1200");
    assert_eq!(copy.units(), "RPM");
}

#[test]
fn every_value_is_a_number() {
    let text = "chip\na: 1 C\nb: -2.50 V\nc: +0003.1%\nd: 12.5\ne: 7.x\nf: 99999999999999999999999.5 W\n";
    let readings = parse_readings(text);
    assert_eq!(readings.len(), 6);
    let numbers: Vec<f64> = readings
        .iter()
        .map(|r| r.value().as_str().parse::<f64>().expect("a number"))
        .collect();
    assert_eq!(numbers, vec![1.0, -2.5, 3.1, 12.0, 7.0, 99999999999999999999999.5]);
}

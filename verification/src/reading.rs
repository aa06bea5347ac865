//! Sensor readings: one measurement of one metric of one device.

use crate::decimal::{is_decimal, Decimal};
use crate::metric::{Metric, MetricView};
use vstd::prelude::*;

verus! {

/// What a reading holds: the device, the label of the metric, the number as
/// it is written, and the unit.
pub struct ReadingView {
    pub device: Seq<char>,
    pub label: Seq<char>,
    pub value: Seq<char>,
    pub units: Seq<char>,
}

/// The reading that a metric makes under the header of its device.
pub open spec fn reading_of(device: Seq<char>, metric: MetricView) -> ReadingView {
    ReadingView { device, label: metric.label, value: metric.value, units: metric.units }
}

/// One measurement, as a report states it. A reading is made by reading a
/// report, and does not change afterwards.
#[derive(Debug, PartialEq, Eq)]
pub struct SensorReading {
    device: String,
    label: String,
    value: Decimal,
    units: String,
}

impl View for SensorReading {
    type V = ReadingView;

    closed spec fn view(&self) -> ReadingView {
        ReadingView {
            device: self.device@,
            label: self.label@,
            value: self.value@,
            units: self.units@,
        }
    }
}

impl Clone for SensorReading {
    fn clone(&self) -> (copy: Self)
        ensures
            copy@ == self@,
    {
        SensorReading {
            device: self.device.clone(),
            label: self.label.clone(),
            value: self.value.clone(),
            units: self.units.clone(),
        }
    }
}

impl SensorReading {
    /// The reading that `metric` makes under the header `device`.
    pub fn new(device: String, metric: Metric) -> (reading: SensorReading)
        ensures
            reading@ == reading_of(device@, metric@),
    {
        SensorReading { device, label: metric.label, value: metric.value, units: metric.units }
    }

    /// The name of the sensor chip or group, as its header line states it.
    pub fn device(&self) -> (device: &str)
        ensures
            device@ == self@.device,
    {
        self.device.as_str()
    }

    /// The name of the metric within its device.
    pub fn label(&self) -> (label: &str)
        ensures
            label@ == self@.label,
    {
        self.label.as_str()
    }

    /// The measurement, which is a signed decimal number.
    pub fn value(&self) -> (value: &Decimal)
        ensures
            value@ == self@.value,
            is_decimal(self@.value),
    {
        proof {
            use_type_invariant(&self.value);
            self.value.lemma_well_formed();
        }
        &self.value
    }

    /// The unit of the measurement, as the report writes it.
    pub fn units(&self) -> (units: &str)
        ensures
            units@ == self@.units,
    {
        self.units.as_str()
    }
}

} // verus!

//! Telemetry as the rest of the station sees it: frames of named samples,
//! stamped with the time at which they were decoded.

use vstd::prelude::*;
use crate::package::Value;

verus! {

/// `time::OffsetDateTime`, an instant with its offset from UTC. It is carried
/// along and handed out again; nothing here looks inside it.
#[verifier::external_type_specification]
#[verifier::external_body]
pub struct ExOffsetDateTime(time::OffsetDateTime);

/// One sample of one channel.
#[derive(Debug, PartialEq)]
pub struct DataPoint {
    pub name: String,
    pub timestamp: time::OffsetDateTime,
    pub value: Value,
}

/// The channels sampled at one instant.
#[derive(Debug, PartialEq)]
pub struct Frame {
    pub timestamp: time::OffsetDateTime,
    pub data_points: Vec<DataPoint>,
}

/// A [`DataPoint`] as contracts see it.
pub struct DataPointView {
    pub name: Seq<char>,
    pub timestamp: time::OffsetDateTime,
    pub value: Value,
}

/// A [`Frame`] as contracts see it.
pub struct FrameView {
    pub timestamp: time::OffsetDateTime,
    pub data_points: Seq<DataPointView>,
}

impl View for DataPoint {
    type V = DataPointView;

    open spec fn view(&self) -> DataPointView {
        DataPointView { name: self.name@, timestamp: self.timestamp, value: self.value }
    }
}

/// The data points of a frame, each as contracts see it.
pub open spec fn data_points_view(points: Seq<DataPoint>) -> Seq<DataPointView> {
    Seq::new(points.len(), |i: int| points[i]@)
}

impl View for Frame {
    type V = FrameView;

    open spec fn view(&self) -> FrameView {
        FrameView { timestamp: self.timestamp, data_points: data_points_view(self.data_points@) }
    }
}

/// The data points that a frame stamped `timestamp` has for `data`.
pub open spec fn stamped(timestamp: time::OffsetDateTime, data: Seq<(String, Value)>) -> Seq<
    DataPointView,
> {
    Seq::new(
        data.len(),
        |i: int| DataPointView { name: data[i].0@, timestamp: timestamp, value: data[i].1 },
    )
}

impl DataPoint {
    /// A sample of the channel `name`, taken at `timestamp`.
    pub fn new(name: &str, timestamp: time::OffsetDateTime, value: Value) -> (point: DataPoint)
        ensures
            point@ == (DataPointView { name: name@, timestamp: timestamp, value: value }),
    {
        DataPoint { name: name.to_owned(), timestamp, value }
    }
}

impl Clone for DataPoint {
    fn clone(&self) -> (copy: DataPoint)
        ensures
            copy@ == self@,
    {
        DataPoint { name: self.name.clone(), timestamp: self.timestamp, value: self.value }
    }
}

impl Frame {
    /// The frame of the samples `data`, all taken at `timestamp`, in the
    /// order given.
    pub fn new(timestamp: time::OffsetDateTime, data: &[(String, Value)]) -> (frame: Frame)
        ensures
            frame@ == (FrameView { timestamp: timestamp, data_points: stamped(timestamp, data@) }),
    {
        let mut data_points: Vec<DataPoint> = Vec::new();
        let mut i: usize = 0;
        while i < data.len()
            invariant
                i <= data.len(),
                data_points@.len() == i,
                data_points_view(data_points@) == stamped(timestamp, data@.take(i as int)),
            decreases data.len() - i,
        {
            let ghost before = data_points@;
            let point = DataPoint::new(data[i].0.as_str(), timestamp, data[i].1);
            data_points.push(point);
            proof {
                let wanted = stamped(timestamp, data@.take(i + 1));
                assert forall|k: int| 0 <= k < i + 1 implies data_points_view(data_points@)[k]
                    == wanted[k] by {
                    if k < i {
                        assert(data_points@[k] == before[k]);
                        assert(data_points_view(before)[k] == stamped(
                            timestamp,
                            data@.take(i as int),
                        )[k]);
                    }
                }
                assert(data_points_view(data_points@) =~= wanted);
            }
            i = i + 1;
        }
        assert(data@.take(data@.len() as int) =~= data@);
        Frame { timestamp, data_points }
    }
}

impl Clone for Frame {
    fn clone(&self) -> (copy: Frame)
        ensures
            copy@ == self@,
    {
        let mut data_points: Vec<DataPoint> = Vec::new();
        let mut i: usize = 0;
        while i < self.data_points.len()
            invariant
                i <= self.data_points.len(),
                data_points@.len() == i,
                data_points_view(data_points@) == data_points_view(
                    self.data_points@.take(i as int),
                ),
            decreases self.data_points.len() - i,
        {
            let ghost before = data_points@;
            data_points.push(self.data_points[i].clone());
            proof {
                let wanted = data_points_view(self.data_points@.take(i + 1));
                assert forall|k: int| 0 <= k < i + 1 implies data_points_view(data_points@)[k]
                    == wanted[k] by {
                    if k < i {
                        assert(data_points@[k] == before[k]);
                        assert(data_points_view(before)[k] == data_points_view(
                            self.data_points@.take(i as int),
                        )[k]);
                    }
                }
                assert(data_points_view(data_points@) =~= wanted);
            }
            i = i + 1;
        }
        assert(self.data_points@.take(self.data_points@.len() as int) =~= self.data_points@);
        Frame { timestamp: self.timestamp, data_points }
    }
}

} // verus!

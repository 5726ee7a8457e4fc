use vstd::prelude::*;

use crate::dict::StrDict;
use crate::value::{MsgValue, MsgView};

verus! {

/// The state sensor monitors general stats of the vehicle: position,
/// direction, velocity, rotation, time.
pub struct State;

impl State {
    /// The request this sensor sends over the vehicle connection.
    pub fn encode_vehicle_request(&self) -> (r: StrDict)
        ensures
            r.wf(),
            r@ == Map::<Seq<char>, MsgView>::empty().insert(
                "type"@,
                MsgView::Text("State"@),
            ),
    {
        let mut req = StrDict::new();
        req.insert("type".to_owned(), MsgValue::Text("State".to_owned()));
        req
    }

    /// The part of a response this sensor reads: the value under `state`.
    pub fn decode_response<'a>(&self, resp: &'a StrDict) -> (r: Option<&'a MsgValue>)
        requires
            resp.wf(),
        ensures
            r is Some <==> resp@.contains_key("state"@),
            r is Some ==> r->0@ == resp@["state"@],
    {
        resp.get(&"state".to_owned())
    }
}

/// Sensor for retrieving vehicle electrics values (RPM, speed, lights, and
/// the like).
pub struct Electrics;

/// The renames applied to electrics readings: the simulator's internal names
/// on the left, the normalized names handed to callers on the right.
pub open spec fn spec_name_map() -> Seq<(Seq<char>, Seq<char>)> {
    seq![
        ("absActive"@, "abs_active"@),
        ("avgWheelAV"@, "avg_wheel_av"@),
        ("brakelights"@, "brake_lights"@),
        ("checkengine"@, "check_engine"@),
        ("clutchRatio"@, "clutch_ratio"@),
        ("engineLoad"@, "engine_load"@),
        ("engineThrottle"@, "engine_throttle"@),
        ("escActive"@, "esc_active"@),
        ("exhaustFlow"@, "exhaust_flow"@),
        ("fog"@, "fog_lights"@),
        ("fuelVolume"@, "fuel_volume"@),
        ("fuelCapacity"@, "fuel_capacity"@),
        ("gear_A"@, "gear_a"@),
        ("gearIndex"@, "gear_index"@),
        ("gear_M"@, "gear_m"@),
        ("hazard_enabled"@, "hazard_signal"@),
        ("isShifting"@, "is_shifting"@),
        ("lights_state"@, "headlights"@),
        ("oiltemp"@, "oil_temperature"@),
        ("radiatorFanSpin"@, "radiator_fan_spin"@),
        ("rpmTacho"@, "rpm_tacho"@),
        ("signal_L"@, "signal_l"@),
        ("signal_left_input"@, "left_signal"@),
        ("signal_R"@, "signal_r"@),
        ("signal_right_input"@, "right_signal"@),
        ("tcsActive"@, "tcs_active"@),
        ("throttleFactor"@, "throttle_factor"@),
        ("twoStep"@, "two_step"@),
        ("watertemp"@, "water_temperature"@),
    ]
}

/// One rename applied to a mapping: where the old name is present, its value
/// moves to the new name; otherwise nothing changes.
pub open spec fn rename_one(
    m: Map<Seq<char>, MsgView>,
    from: Seq<char>,
    to: Seq<char>,
) -> Map<Seq<char>, MsgView> {
    if m.contains_key(from) {
        m.remove(from).insert(to, m[from])
    } else {
        m
    }
}

/// The first `n` renames of the name map applied in order.
pub open spec fn rename_upto(m: Map<Seq<char>, MsgView>, n: int) -> Map<Seq<char>, MsgView>
    decreases n,
{
    if n <= 0 {
        m
    } else {
        rename_one(rename_upto(m, n - 1), spec_name_map()[n - 1].0, spec_name_map()[n - 1].1)
    }
}

/// The exec twin of the name map.
fn name_map() -> (r: Vec<(String, String)>)
    ensures
        r@.len() == spec_name_map().len(),
        forall|i: int| 0 <= i < r@.len() ==> ((#[trigger] r@[i]).0@, r@[i].1@) == spec_name_map()[i],
{
    let mut v: Vec<(String, String)> = Vec::new();
    v.push(("absActive".to_owned(), "abs_active".to_owned()));
    v.push(("avgWheelAV".to_owned(), "avg_wheel_av".to_owned()));
    v.push(("brakelights".to_owned(), "brake_lights".to_owned()));
    v.push(("checkengine".to_owned(), "check_engine".to_owned()));
    v.push(("clutchRatio".to_owned(), "clutch_ratio".to_owned()));
    v.push(("engineLoad".to_owned(), "engine_load".to_owned()));
    v.push(("engineThrottle".to_owned(), "engine_throttle".to_owned()));
    v.push(("escActive".to_owned(), "esc_active".to_owned()));
    v.push(("exhaustFlow".to_owned(), "exhaust_flow".to_owned()));
    v.push(("fog".to_owned(), "fog_lights".to_owned()));
    v.push(("fuelVolume".to_owned(), "fuel_volume".to_owned()));
    v.push(("fuelCapacity".to_owned(), "fuel_capacity".to_owned()));
    v.push(("gear_A".to_owned(), "gear_a".to_owned()));
    v.push(("gearIndex".to_owned(), "gear_index".to_owned()));
    v.push(("gear_M".to_owned(), "gear_m".to_owned()));
    v.push(("hazard_enabled".to_owned(), "hazard_signal".to_owned()));
    v.push(("isShifting".to_owned(), "is_shifting".to_owned()));
    v.push(("lights_state".to_owned(), "headlights".to_owned()));
    v.push(("oiltemp".to_owned(), "oil_temperature".to_owned()));
    v.push(("radiatorFanSpin".to_owned(), "radiator_fan_spin".to_owned()));
    v.push(("rpmTacho".to_owned(), "rpm_tacho".to_owned()));
    v.push(("signal_L".to_owned(), "signal_l".to_owned()));
    v.push(("signal_left_input".to_owned(), "left_signal".to_owned()));
    v.push(("signal_R".to_owned(), "signal_r".to_owned()));
    v.push(("signal_right_input".to_owned(), "right_signal".to_owned()));
    v.push(("tcsActive".to_owned(), "tcs_active".to_owned()));
    v.push(("throttleFactor".to_owned(), "throttle_factor".to_owned()));
    v.push(("twoStep".to_owned(), "two_step".to_owned()));
    v.push(("watertemp".to_owned(), "water_temperature".to_owned()));
    v
}

/// Move electrics readings from the simulator's internal names to the
/// normalized ones, one rename at a time in the name map's order; names
/// outside the map keep their entries.
#[verifier::loop_isolation(false)]
pub fn rename_values(vals: StrDict) -> (r: StrDict)
    requires
        vals.wf(),
    ensures
        r.wf(),
        r@ == rename_upto(vals@, spec_name_map().len() as int),
{
    let mut vals = vals;
    let ghost v0 = vals@;
    let map = name_map();
    let n = map.len();
    let mut i: usize = 0;
    while i < n
        invariant
            0 <= i <= n,
            n == spec_name_map().len(),
            vals.wf(),
            vals@ == rename_upto(v0, i as int),
        decreases n - i,
    {
        if let Some(v) = vals.remove(&map[i].0) {
            vals.insert(map[i].1.clone(), v);
        } else {
            proof {
                assert(vals@ =~= rename_one(
                    rename_upto(v0, i as int),
                    spec_name_map()[i as int].0,
                    spec_name_map()[i as int].1,
                ));
            }
        }
        i = i + 1;
    }
    vals
}

/// The string-keyed mapping of a wire map's text-keyed pairs, in order; a
/// pair whose key is not native text is passed over.
pub open spec fn text_keyed(pairs: Seq<(MsgView, MsgView)>) -> Map<Seq<char>, MsgView>
    decreases pairs,
{
    if pairs.len() == 0 {
        Map::empty()
    } else {
        let m = text_keyed(pairs.drop_last());
        match pairs.last().0 {
            MsgView::Text(t) => m.insert(t, pairs.last().1),
            _ => m,
        }
    }
}

impl Electrics {
    /// The request this sensor sends over the vehicle connection.
    pub fn encode_vehicle_request(&self) -> (r: StrDict)
        ensures
            r.wf(),
            r@ == Map::<Seq<char>, MsgView>::empty().insert(
                "type"@,
                MsgView::Text("Electrics"@),
            ),
    {
        let mut req = StrDict::new();
        req.insert("type".to_owned(), MsgValue::Text("Electrics".to_owned()));
        req
    }

    /// The part of a response this sensor reads: the map under `values`,
    /// its text-keyed pairs gathered up and renamed to the normalized names.
    /// Absent where the response has no `values` map.
    #[verifier::loop_isolation(false)]
    pub fn decode_response(&self, resp: StrDict) -> (r: Option<StrDict>)
        requires
            resp.wf(),
        ensures
            r is Some <==> (resp@.contains_key("values"@) && resp@["values"@] is Dict),
            r is Some ==> r->0.wf() && r->0@ == rename_upto(
                text_keyed(resp@["values"@]->Dict_0),
                spec_name_map().len() as int,
            ),
    {
        broadcast use crate::value::lemma_dict_view;

        let mut resp = resp;
        let values = match resp.remove(&"values".to_owned()) {
            Some(v) => v,
            None => {
                return None;
            },
        };
        match values {
            MsgValue::Dict(mut pairs) => {
                let ghost vp = crate::value::dict_view(pairs@);
                proof {
                    assert(values@ == MsgView::Dict(vp));
                }
                let mut out = StrDict::new();
                let n = pairs.len();
                let mut i: usize = 0;
                while i < n
                    invariant
                        0 <= i <= n,
                        n == vp.len(),
                        pairs@.len() == n - i,
                        forall|j: int|
                            0 <= j < n - i ==> vp[i + j] == ((#[trigger] pairs@[j]).0@, pairs@[j].1@),
                        out@ == text_keyed(vp.take(i as int)),
                        out.wf(),
                    decreases n - i,
                {
                    let (k, v) = pairs.remove(0);
                    proof {
                        assert(vp[i as int] == (k@, v@));
                        assert(vp.take(i + 1).drop_last() =~= vp.take(i as int));
                        assert(vp.take(i + 1).last() == vp[i as int]);
                    }
                    match k {
                        MsgValue::Text(t) => {
                            out.insert(t, v);
                        },
                        _ => {},
                    }
                    i = i + 1;
                }
                proof {
                    assert(vp.take(n as int) =~= vp);
                }
                Some(rename_values(out))
            },
            _ => None,
        }
    }
}

/// Raw image data from a camera reading.
pub struct CameraRawReadings {
    pub colour: Option<Vec<u8>>,
    pub annotation: Option<Vec<u8>>,
    pub depth: Option<Vec<u8>>,
}

/// A GPS sensor attached to a vehicle. This is the sensor's identity as the
/// protocol sees it; opening, polling and closing it are exchanges over a
/// connection, made by the caller that owns the transport.
pub struct Gps {
    name: String,
    vid: String,
    is_send_immediately: bool,
}

impl Gps {
    /// The sensor's name.
    pub closed spec fn spec_name(&self) -> Seq<char> {
        self.name@
    }

    /// The vehicle the sensor is attached to.
    pub closed spec fn spec_vid(&self) -> Seq<char> {
        self.vid@
    }

    /// Whether readings are sent immediately rather than polled in bulk.
    pub closed spec fn spec_send_immediately(&self) -> bool {
        self.is_send_immediately
    }

    /// A sensor identity, as registered with the simulator under `name`,
    /// attached to the vehicle `vid`.
    pub fn new(name: String, vid: String, is_send_immediately: bool) -> (r: Gps)
        ensures
            r.spec_name() == name@,
            r.spec_vid() == vid@,
            r.spec_send_immediately() == is_send_immediately,
    {
        Gps { name, vid, is_send_immediately }
    }

    pub fn name(&self) -> (r: &str)
        ensures
            r@ == self.spec_name(),
    {
        self.name.as_str()
    }

    /// The vehicle identifier this sensor was opened for.
    pub fn vid(&self) -> (r: &str)
        ensures
            r@ == self.spec_vid(),
    {
        self.vid.as_str()
    }
}

/// An advanced IMU sensor attached to a vehicle; like [`Gps`], the
/// protocol-side identity only.
pub struct AdvancedImu {
    name: String,
    vid: String,
    is_send_immediately: bool,
}

impl AdvancedImu {
    /// The sensor's name.
    pub closed spec fn spec_name(&self) -> Seq<char> {
        self.name@
    }

    /// The vehicle the sensor is attached to.
    pub closed spec fn spec_vid(&self) -> Seq<char> {
        self.vid@
    }

    /// Whether readings are sent immediately rather than polled in bulk.
    pub closed spec fn spec_send_immediately(&self) -> bool {
        self.is_send_immediately
    }

    /// A sensor identity, as registered with the simulator under `name`,
    /// attached to the vehicle `vid`.
    pub fn new(name: String, vid: String, is_send_immediately: bool) -> (r: AdvancedImu)
        ensures
            r.spec_name() == name@,
            r.spec_vid() == vid@,
            r.spec_send_immediately() == is_send_immediately,
    {
        AdvancedImu { name, vid, is_send_immediately }
    }

    pub fn name(&self) -> (r: &str)
        ensures
            r@ == self.spec_name(),
    {
        self.name.as_str()
    }

    /// The vehicle identifier this sensor was opened for.
    pub fn vid(&self) -> (r: &str)
        ensures
            r@ == self.spec_vid(),
    {
        self.vid.as_str()
    }

    /// Whether readings are sent immediately rather than polled in bulk.
    pub fn send_immediately(&self) -> (r: bool)
        ensures
            r == self.spec_send_immediately(),
    {
        self.is_send_immediately
    }
}

} // verus!

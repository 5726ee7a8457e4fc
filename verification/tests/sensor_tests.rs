use beamng_proto::{
    rename_values, value_to_str_dict, value_to_string, AdvancedImu, CameraRawReadings, Electrics,
    Gps, MsgValue, State, StrDict,
};

fn text(s: &str) -> MsgValue {
    MsgValue::Text(s.to_owned())
}

#[test]
fn state_sensor_round() {
    let s = State;
    let req = s.encode_vehicle_request();
    assert_eq!(
        value_to_string(req.get(&"type".to_owned()).unwrap()),
        Some("State".to_owned())
    );

    let resp = value_to_str_dict(MsgValue::Dict(vec![(
        text("state"),
        MsgValue::Dict(vec![(text("time"), MsgValue::UInt(9))]),
    )]))
    .unwrap();
    assert!(s.decode_response(&resp).is_some());

    let empty = StrDict::new();
    assert!(s.decode_response(&empty).is_none());
}

#[test]
fn electrics_sensor_renames_readings() {
    let e = Electrics;
    let req = e.encode_vehicle_request();
    assert_eq!(
        value_to_string(req.get(&"type".to_owned()).unwrap()),
        Some("Electrics".to_owned())
    );

    let resp = value_to_str_dict(MsgValue::Dict(vec![(
        text("values"),
        MsgValue::Dict(vec![
            (text("rpmTacho"), MsgValue::UInt(3000)),
            (text("fog"), MsgValue::Bool(false)),
            (text("odometer"), MsgValue::UInt(5)),
            (MsgValue::UInt(7), MsgValue::Null),
        ]),
    )]))
    .unwrap();
    let vals = e.decode_response(resp).unwrap();
    assert!(matches!(
        vals.get(&"rpm_tacho".to_owned()),
        Some(MsgValue::UInt(3000))
    ));
    assert!(matches!(
        vals.get(&"fog_lights".to_owned()),
        Some(MsgValue::Bool(false))
    ));
    // A name outside the map keeps its entry.
    assert!(matches!(vals.get(&"odometer".to_owned()), Some(MsgValue::UInt(5))));
    assert!(vals.get(&"rpmTacho".to_owned()).is_none());
    assert!(vals.get(&"fog".to_owned()).is_none());

    // A response without a values map yields nothing.
    let no_values =
        value_to_str_dict(MsgValue::Dict(vec![(text("other"), MsgValue::Null)])).unwrap();
    assert!(e.decode_response(no_values).is_none());
}

#[test]
fn rename_values_moves_known_names_only() {
    let mut d = StrDict::new();
    d.insert("watertemp".to_owned(), MsgValue::UInt(90));
    d.insert("plain".to_owned(), MsgValue::UInt(1));
    let renamed = rename_values(d);
    assert!(renamed.get(&"water_temperature".to_owned()).is_some());
    assert!(renamed.get(&"watertemp".to_owned()).is_none());
    assert!(renamed.get(&"plain".to_owned()).is_some());
}

#[test]
fn gps_keeps_its_identity() {
    let g = Gps::new("gps1".to_owned(), "ego".to_owned(), false);
    assert_eq!(g.name(), "gps1");
    assert_eq!(g.vid(), "ego");
}

#[test]
fn imu_keeps_its_identity() {
    let imu = AdvancedImu::new("imu1".to_owned(), "ego".to_owned(), true);
    assert_eq!(imu.name(), "imu1");
    assert_eq!(imu.vid(), "ego");
    assert!(imu.send_immediately());
}

#[test]
fn camera_raw_readings_carry_three_channels() {
    let r = CameraRawReadings { colour: Some(vec![1, 2, 3]), annotation: None, depth: None };
    assert_eq!(r.colour.as_deref(), Some(&[1u8, 2, 3][..]));
    assert!(r.annotation.is_none());
    assert!(r.depth.is_none());
}

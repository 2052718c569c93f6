use runalyzer::r09::{
    r09_code, r09_from_code, r09_from_number, r09_number, telegram_type_code,
    telegram_type_from_code, telegram_type_from_number, DocumentMetaInformation, InterRegional,
    R09Types, RegionMetaInformation, TelegramType, TransmissionPosition,
};

fn tp(name: &str, telegram_type: TelegramType, lat_udeg: i64, lon_udeg: i64) -> TransmissionPosition {
    TransmissionPosition {
        dhid: None,
        name: Some(name.to_string()),
        telegram_type,
        direction: 0,
        lat_udeg,
        lon_udeg,
    }
}

fn registry() -> InterRegional {
    InterRegional {
        document: DocumentMetaInformation {
            schema_version: "1".to_string(),
            date: 1_600_000_000,
            generator: None,
            generator_version: None,
        },
        data: vec![(
            "somewhere".to_string(),
            vec![
                (
                    400u32,
                    vec![
                        tp("gate", TelegramType::Registration, 51_000_000, 13_700_000),
                        tp("gate door", TelegramType::DoorClosed, 51_000_100, 13_700_100),
                    ],
                ),
                (401u32, vec![]),
            ],
        )],
        meta: vec![(
            "somewhere".to_string(),
            RegionMetaInformation {
                frequency: Some(170_790_000),
                city_name: Some("somewhere".to_string()),
                type_r09: Some(R09Types::R16),
            },
        )],
    }
}

#[test]
fn protocol_revision_codes_round_trip() {
    for t in [R09Types::R14, R09Types::R16, R09Types::R18] {
        assert_eq!(r09_from_code(&r09_code(&t)), Some(t));
        assert_eq!(r09_from_number(r09_number(&t)), Some(t));
    }
    assert_eq!(r09_code(&R09Types::R14), "R09.14");
    assert_eq!(r09_from_code(&"R09.15".to_string()), None);
    assert_eq!(r09_from_number(15), None);
}

#[test]
fn telegram_type_codes_parse_and_print() {
    assert_eq!(
        telegram_type_from_code(&"pre_registration".to_string()),
        Some(TelegramType::PreRegistration)
    );
    assert_eq!(
        telegram_type_from_code(&"door_close".to_string()),
        Some(TelegramType::DoorClosed)
    );
    assert_eq!(telegram_type_from_code(&"closed".to_string()), None);
    assert_eq!(telegram_type_from_number(3), Some(TelegramType::DoorClosed));
    assert_eq!(telegram_type_from_number(4), None);
    assert_eq!(telegram_type_code(&TelegramType::DeRegistration), "2");
}

#[test]
fn extract_cuts_one_region_out_of_the_registry() {
    let r = registry();
    let region = r.extract(&"somewhere".to_string()).expect("region");
    assert_eq!(region.traffic_lights.len(), 2);
    assert_eq!(region.meta.frequency, Some(170_790_000));
    assert!(r.extract(&"nowhere".to_string()).is_none());
}

#[test]
fn look_up_finds_the_positions_of_one_junction() {
    let r = registry();
    let list = r.look_up(&"somewhere".to_string(), &400).expect("list");
    assert_eq!(list.len(), 2);
    assert_eq!(list[0].name.as_deref(), Some("gate"));
    assert!(r.look_up(&"somewhere".to_string(), &999).is_none());
    assert!(r.look_up(&"nowhere".to_string(), &400).is_none());
}

#[test]
fn approximate_position_prefers_a_door_closed_report() {
    let r = registry();
    let best = r
        .get_approximate_position(&"somewhere".to_string(), &400)
        .expect("position");
    assert_eq!(best.telegram_type, TelegramType::DoorClosed);
    assert_eq!(best.lat_udeg, 51_000_100);
    // An empty report list yields nothing.
    assert!(r.get_approximate_position(&"somewhere".to_string(), &401).is_none());
}

use archive_af::codec::{decode, encode};
use archive_af::model::{ArchiveEntry, Property, PropertyType, QueuePosition};
use archive_af::text::transform_short_description;
use archive_af::user::{parse_dob, DateYmd};

fn sample_property() -> Property {
    Property {
        id: 17,
        property_type: PropertyType::Apartment,
        description: String::from("Stor balkong"),
        short_description: String::from("Rum"),
        area: String::from("Sparta"),
        queue_position: QueuePosition { position: Some(3), total_in_queue: 12 },
        reserved: false,
        size_sqm: String::from("24.5"),
    }
}

#[test]
fn encode_writes_canonical_document() {
    let p = sample_property();
    let s = encode(&p);
    assert_eq!(
        s,
        "{\"id\":17,\"property_type\":\"Apartment\",\"description\":\"Stor balkong\",\
         \"short_description\":\"Rum\",\"area\":\"Sparta\",\
         \"queue_position\":{\"position\":3,\"total_in_queue\":12},\
         \"reserved\":false,\"size_sqm\":\"24.5\"}"
    );
}

#[test]
fn round_trip_normalised_shape() {
    let p = sample_property();
    let s = encode(&p);
    match decode(&s) {
        Some(ArchiveEntry::V011(q)) => assert_eq!(q, p),
        other => panic!("expected the normalised shape back, got {:?}", other),
    }
}

#[test]
fn round_trip_with_escapes_and_absent_position() {
    let p = Property {
        id: 4294967295,
        property_type: PropertyType::Other(String::from("Hus \"B\" \\ C")),
        description: String::from("sagt \"ja\""),
        short_description: String::from("\\"),
        area: String::from("K\u{e4}mn\u{e4}rsr\u{e4}tten"),
        queue_position: QueuePosition { position: None, total_in_queue: 0 },
        reserved: true,
        size_sqm: String::from("19.0"),
    };
    let s = encode(&p);
    match decode(&s) {
        Some(ArchiveEntry::V011(q)) => assert_eq!(q, p),
        other => panic!("expected the normalised shape back, got {:?}", other),
    }
}

#[test]
fn decode_oldest_shape() {
    let doc = "{\"productId\":\"17\",\"type\":\"L\u{e4}genhet\",\
               \"description\":\"Stor balkong\",\"shortDescription\":\"RUM P\u{c5} VIND\",\
               \"area\":\"Sparta\",\"sqrMtrs\":\"24.5\",\"reserved\":\"false\",\
               \"numberOfReservations\":\"12\",\"queueNumber\":\"3\"}";
    let entry = decode(doc).expect("the oldest raw shape must decode");
    match entry {
        ArchiveEntry::V010(ref product) => {
            assert_eq!(product.product_id, 17);
            assert_eq!(product.typ, "L\u{e4}genhet");
            assert_eq!(product.queue_number, 3);
            assert_eq!(product.number_of_reservations, 12);
            assert!(!product.reserved);
        }
        ref other => panic!("expected the oldest shape, got {:?}", other),
    }
    let p = entry.into_property();
    assert_eq!(p.id, 17);
    assert_eq!(p.property_type, PropertyType::Apartment);
    assert_eq!(p.short_description, "Rum p\u{e5} vind");
    assert_eq!(p.queue_position.position, Some(3));
    assert_eq!(p.queue_position.total_in_queue, 12);
    assert_eq!(p.size_sqm, "24.5");
}

#[test]
fn oldest_shape_still_decodes_beside_newer_one() {
    // A file written under the oldest shape and a file written under the
    // newest one both decode, each as its own shape.
    let old_doc = "{\"productId\":\"8\",\"type\":\"Korridorrum\",\"description\":\"d\",\
                   \"shortDescription\":\"s\",\"area\":\"a\",\"sqrMtrs\":\"10\",\
                   \"reserved\":\"true\",\"numberOfReservations\":\"2\",\"queueNumber\":\"1\"}";
    assert!(matches!(decode(old_doc), Some(ArchiveEntry::V010(_))));
    let new_doc = encode(&sample_property());
    assert!(matches!(decode(&new_doc), Some(ArchiveEntry::V011(_))));
}

#[test]
fn decode_skips_unknown_shapes() {
    assert_eq!(decode(""), None);
    assert_eq!(decode("{}"), None);
    assert_eq!(decode("not json at all"), None);
    // a truncated document of the oldest shape
    assert_eq!(decode("{\"productId\":\"17\",\"type\":\"x\"}"), None);
    // a number too large for the identity
    assert_eq!(
        decode("{\"id\":4294967296,\"property_type\":\"Apartment\",\"description\":\"d\",\"short_description\":\"s\",\"area\":\"a\",\"queue_position\":{\"position\":null,\"total_in_queue\":0},\"reserved\":false,\"size_sqm\":\"1\"}"),
        None
    );
}

#[test]
fn transform_short_description_capitalizes() {
    assert_eq!(transform_short_description("RUM P\u{c5} VIND"), "Rum p\u{e5} vind");
    assert_eq!(transform_short_description(""), "");
    assert_eq!(transform_short_description("\u{e5}sa"), "\u{c5}sa");
    assert_eq!(transform_short_description("a"), "A");
}

#[test]
fn parse_dob_reads_the_leading_digits() {
    assert_eq!(
        parse_dob("20000229-1234"),
        Some(DateYmd { year: 2000, month: 2, day: 29 })
    );
    // 1900 is no leap year
    assert_eq!(parse_dob("19000229-1234"), None);
    assert_eq!(parse_dob("2000"), None);
    assert_eq!(parse_dob("20001301xxxx"), None);
    assert_eq!(parse_dob("199912319999"), Some(DateYmd { year: 1999, month: 12, day: 31 }));
}

#[test]
fn property_type_from_known_labels() {
    assert_eq!(PropertyType::from_str("L\u{e4}genhet"), PropertyType::Apartment);
    assert_eq!(PropertyType::from_str("Korridorrum"), PropertyType::CorridorRoom);
    assert_eq!(
        PropertyType::from_str("Villa"),
        PropertyType::Other(String::from("Villa"))
    );
}

#[test]
fn caretaker_becomes_worker_contact() {
    let c = archive_af::user::HouseCaretaker {
        worker_id: String::from("w17"),
        login_id: String::from("x"),
        name: String::from("Kim"),
        phone: String::from("046-1"),
        workphone: String::from("046-2"),
        email: String::from("kim@example.com"),
    };
    let w = c.into_worker();
    assert_eq!(w.id, "w17");
    assert_eq!(w.work_phone, "046-2");
    assert_eq!(w.name, "Kim");
}

#[test]
fn full_address_narrows_to_plain_address() {
    let f = archive_af::user::FullAddress {
        street: String::from("Gatan 1"),
        city: String::from("Lund"),
        postal_code: String::from("22100"),
        county: String::from("Sk\u{e5}ne"),
        country: String::from("Sverige"),
    };
    let a = f.into_address();
    assert_eq!(a.street, "Gatan 1");
    assert_eq!(a.city, "Lund");
    assert_eq!(a.postal_code, "22100");
}

#[test]
fn shower_label_reads_as_own() {
    let s = archive_af::user::Shower::from_str("Egen dusch");
    assert!(matches!(s, archive_af::user::Shower::Own));
}

#[test]
fn default_query_has_no_ceiling() {
    let q = archive_af::read::QueueHistoryQuery::default();
    assert_eq!(q.max, None);
}

#[test]
fn decode_pretty_printed_oldest_shape() {
    // the indented, full-field form in which archive files were written
    let doc = "{\n  \"productId\": \"1812\",\n  \"type\": \"L\u{e4}genhet\",\n  \"description\": \"Inre korridor\",\n  \"shortDescription\": \"RUM 12 KVM\",\n  \"area\": \"Sparta A\",\n  \"objectnumber\": \"71-123-45\",\n  \"lghnummer\": \"1201\",\n  \"address\": \"Tunav\u{e4}gen 39\",\n  \"zipcode\": \"22363\",\n  \"city\": \"Lund\",\n  \"floor\": \"-1\",\n  \"sqrMtrs\": \"24.5\",\n  \"reserved\": \"false\",\n  \"numberOfReservations\": \"12\",\n  \"queueNumber\": \"3\",\n  \"moveInDate\": \"2024-09-01\",\n  \"reserveFromDate\": \"2024-08-01\",\n  \"reserveUntilDate\": \"2024-08-15\",\n  \"priority\": null,\n  \"rent\": \"4711\"\n}";
    let entry = decode(doc).expect("the pretty-printed oldest shape must decode");
    match entry {
        ArchiveEntry::V010(ref product) => {
            assert_eq!(product.product_id, 1812);
            assert_eq!(product.typ, "L\u{e4}genhet");
            assert_eq!(product.description, "Inre korridor");
            assert_eq!(product.short_description, "RUM 12 KVM");
            assert_eq!(product.area, "Sparta A");
            assert_eq!(product.sqr_mtrs, "24.5");
            assert!(!product.reserved);
            assert_eq!(product.number_of_reservations, 12);
            assert_eq!(product.queue_number, 3);
        }
        ref other => panic!("expected the oldest shape, got {:?}", other),
    }
}

#[test]
fn decode_pretty_printed_normalised_shape() {
    // the indented, full-field form with a bare number for the size and
    // nested objects for the address and the queue position
    let doc = "{\n  \"id\": 1812,\n  \"description\": \"Inre korridor\",\n  \"short_description\": \"Rum 12 kvm\",\n  \"address\": {\n    \"street\": \"Tunav\u{e4}gen 39\",\n    \"city\": \"Lund\",\n    \"postal_code\": \"22363\"\n  },\n  \"property_type\": \"Apartment\",\n  \"area\": \"Sparta A\",\n  \"queue_position\": {\n    \"position\": 3,\n    \"total_in_queue\": 12\n  },\n  \"reserved\": false,\n  \"floor\": -1,\n  \"size_sqm\": 24.5,\n  \"reserve_from\": \"2024-08-01\",\n  \"reserve_until\": \"2024-08-15\",\n  \"move_in\": \"2024-09-01\",\n  \"priority\": null,\n  \"rent\": 4711\n}";
    let entry = decode(doc).expect("the pretty-printed normalised shape must decode");
    match entry {
        ArchiveEntry::V011(ref p) => {
            assert_eq!(p.id, 1812);
            assert_eq!(p.property_type, PropertyType::Apartment);
            assert_eq!(p.queue_position.position, Some(3));
            assert_eq!(p.queue_position.total_in_queue, 12);
            assert_eq!(p.size_sqm, "24.5");
            assert!(!p.reserved);
        }
        ref other => panic!("expected the normalised shape, got {:?}", other),
    }
}

#[test]
fn decode_accepts_any_member_order_and_json_escapes() {
    let doc = "{\"size_sqm\":\"19\",\"reserved\":true,\"queue_position\":{\"total_in_queue\":2,\"position\":null},\"area\":\"A\\nB\",\"short_description\":\"s\",\"description\":\"tab\\there \\u0041\",\"property_type\":{\"Other\":\"Hus\"},\"id\":7}";
    let entry = decode(doc).expect("member order must not matter");
    match entry {
        ArchiveEntry::V011(ref p) => {
            assert_eq!(p.id, 7);
            assert_eq!(p.property_type, PropertyType::Other(String::from("Hus")));
            assert_eq!(p.area, "A\nB");
            assert_eq!(p.description, "tab\there A");
            assert_eq!(p.queue_position.position, None);
            assert!(p.reserved);
        }
        ref other => panic!("expected the normalised shape, got {:?}", other),
    }
}

#[test]
fn decode_rejects_duplicate_and_missing_members() {
    // a known member twice
    assert_eq!(
        decode("{\"productId\":\"1\",\"productId\":\"2\",\"type\":\"x\",\"description\":\"d\",\"shortDescription\":\"s\",\"area\":\"a\",\"sqrMtrs\":\"1\",\"reserved\":\"true\",\"numberOfReservations\":\"2\",\"queueNumber\":\"1\"}"),
        None
    );
    // a required member absent
    assert_eq!(decode("{\"id\":7,\"reserved\":false}"), None);
}

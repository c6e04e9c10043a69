use appliance_register::api::SubmitPrivateRequest;
use appliance_register::date::Date;
use appliance_register::model::{Environment, Private};
use appliance_register::repository::{
    decode_pages, filter_items_by_voltage, item_matches_voltage, item_to_private, item_value,
    out_of_date, private_to_item, required_item_value, scan_absorb, Attr, AttrValue, Item,
};

fn record(tag: &str, voltage: &str, environment: &str, date: &str) -> Private {
    SubmitPrivateRequest {
        name: String::from("owner"),
        description: String::from("appliance"),
        ir: String::from("550.5"),
        resistance_to_earth: String::from("0.2"),
        voltage: String::from(voltage),
        tested_by: String::from("J. Smith"),
        tag_number: String::from(tag),
        environment: String::from(environment),
        date: String::from(date),
    }
    .to_private()
    .expect("valid submission")
}

fn attr(key: &str, value: &str) -> Attr {
    Attr { key: String::from(key), value: AttrValue::S(String::from(value)) }
}

fn assert_same_record(a: &Private, b: &Private) {
    assert_eq!(a.name, b.name);
    assert_eq!(a.description, b.description);
    assert_eq!(a.ir, b.ir);
    assert_eq!(a.resistance_to_earth, b.resistance_to_earth);
    assert_eq!(a.voltage, b.voltage);
    assert_eq!(a.tested_by, b.tested_by);
    assert_eq!(a.tag_number, b.tag_number);
    assert_eq!(a.environment, b.environment);
    assert_eq!(a.date, b.date);
    assert_eq!(a.retest, b.retest);
}

#[test]
fn serialized_record_round_trips() {
    let original = record("TAG-1", "240", "DC", "2024-01-31");
    let item = private_to_item(&original);
    let rebuilt = item_to_private(&item).expect("own serialization deserializes");
    assert_same_record(&original, &rebuilt);
    assert_eq!(rebuilt.retest, Date { year: 2025, month: 1, day: 31 });
}

#[test]
fn serialized_item_uses_store_key_attributes() {
    let original = record("TAG-9", "115", "Cabins", "2023-05-02");
    let item = private_to_item(&original);
    assert_eq!(required_item_value("pK", &item).unwrap(), "TAG-9");
    assert_eq!(required_item_value("sK", &item).unwrap(), "2025-05-02");
    assert_eq!(required_item_value("voltage", &item).unwrap(), "115");
    assert_eq!(required_item_value("environment", &item).unwrap(), "Cabins");
    assert_eq!(required_item_value("date", &item).unwrap(), "2023-05-02");
}

#[test]
fn item_value_distinguishes_absent_and_untyped() {
    let item = Item {
        attrs: vec![attr("name", "owner"), Attr {
            key: String::from("voltage"),
            value: AttrValue::Other,
        }],
    };
    assert_eq!(item_value("name", &item).unwrap(), Some(String::from("owner")));
    assert_eq!(item_value("description", &item).unwrap(), None);
    assert!(item_value("voltage", &item).is_err());
    assert!(required_item_value("description", &item).is_err());
    assert!(required_item_value("voltage", &item).is_err());
}

#[test]
fn corrupt_item_fails_deserialization() {
    let mut item = private_to_item(&record("TAG-2", "240", "DC", "2024-01-31"));
    item.attrs.retain(|a| a.key != "voltage");
    assert!(item_to_private(&item).is_err());

    let mut item = private_to_item(&record("TAG-2", "240", "DC", "2024-01-31"));
    for a in item.attrs.iter_mut() {
        if a.key == "sK" {
            a.value = AttrValue::S(String::from("not-a-date"));
        }
    }
    assert!(item_to_private(&item).is_err());

    let mut item = private_to_item(&record("TAG-2", "240", "DC", "2024-01-31"));
    for a in item.attrs.iter_mut() {
        if a.key == "environment" {
            a.value = AttrValue::S(String::from("Sauna"));
        }
    }
    assert!(item_to_private(&item).is_err());
}

#[test]
fn scan_skips_corrupt_item_and_keeps_the_rest() {
    let good_one = private_to_item(&record("TAG-1", "240", "DC", "2024-01-31"));
    let mut corrupt = private_to_item(&record("TAG-2", "240", "DC", "2024-01-31"));
    corrupt.attrs.retain(|a| a.key != "name");
    let good_two = private_to_item(&record("TAG-3", "115", "Cabins", "2023-05-02"));
    let page = vec![good_one, corrupt, good_two];

    let mut records: Vec<Private> = Vec::new();
    let skipped = scan_absorb(&mut records, &page);
    assert_eq!(records.len(), 2);
    assert_eq!(records[0].tag_number, "TAG-1");
    assert_eq!(records[1].tag_number, "TAG-3");
    assert_eq!(skipped, vec![1]);
}

#[test]
fn scan_covers_every_page() {
    let pages = vec![
        vec![
            private_to_item(&record("TAG-1", "240", "DC", "2024-01-31")),
            private_to_item(&record("TAG-2", "115", "Cabins", "2023-05-02")),
        ],
        vec![private_to_item(&record("TAG-3", "12", "Cleaning", "2022-11-20"))],
        vec![],
        vec![private_to_item(&record("TAG-4", "240", "PrivateApp", "2021-07-07"))],
    ];
    let records = decode_pages(&pages);
    let tags: Vec<&str> = records.iter().map(|r| r.tag_number.as_str()).collect();
    assert_eq!(tags, vec!["TAG-1", "TAG-2", "TAG-3", "TAG-4"]);
}

#[test]
fn voltage_filter_returns_exactly_the_matching_records() {
    let items = vec![
        private_to_item(&record("TAG-240", "240", "DC", "2024-01-31")),
        private_to_item(&record("TAG-115", "115", "Cabins", "2023-05-02")),
        private_to_item(&record("TAG-12", "12", "Cleaning", "2022-11-20")),
    ];

    let kept = filter_items_by_voltage(&items, 240);
    let mut records: Vec<Private> = Vec::new();
    scan_absorb(&mut records, &kept);
    assert_eq!(records.len(), 1);
    assert_eq!(records[0].tag_number, "TAG-240");
    assert_eq!(records[0].voltage, 240);

    let kept = filter_items_by_voltage(&items, 115);
    let mut records: Vec<Private> = Vec::new();
    scan_absorb(&mut records, &kept);
    assert_eq!(records.len(), 1);
    assert_eq!(records[0].tag_number, "TAG-115");

    assert!(item_matches_voltage(&items[0], 240));
    assert!(!item_matches_voltage(&items[0], 115));
}

#[test]
fn overdue_filter_keeps_only_records_past_their_retest() {
    // Retest dates: 2023-01-01, 2024-06-01, 2025-01-01.
    let records = vec![
        record("TAG-A", "240", "DC", "2022-01-01"),
        record("TAG-B", "240", "DC", "2023-06-01"),
        record("TAG-C", "240", "DC", "2024-01-01"),
    ];
    assert_eq!(records[0].retest, Date { year: 2023, month: 1, day: 1 });
    assert_eq!(records[1].retest, Date { year: 2024, month: 6, day: 1 });
    assert_eq!(records[2].retest, Date { year: 2025, month: 1, day: 1 });

    let as_of = Date { year: 2024, month: 1, day: 1 };
    let overdue = out_of_date(&records, &as_of);
    assert_eq!(overdue.len(), 1);
    assert_eq!(overdue[0].tag_number, "TAG-A");

    let none_due = out_of_date(&records, &Date { year: 2023, month: 1, day: 1 });
    assert!(none_due.is_empty());
}

use secs_sim::catalog::{new_blank_message, try_catalog_auto_reply, MessageCatalog, PrefabMessage};
use secs_sim::config::Role;
use secs_sim::rules::HsmsHeader;

const SAMPLE: &str = r#"<?xml version="1.0"?>
<SECSMessage>
  <AreYouThere>
    <Header>
      <MessageName>AreYouThere</MessageName>
      <Description PairName="S1F1">Are You There Request</Description>
      <Stream>1</Stream>
      <Function>1</Function>
      <Direction>H-&gt;E</Direction>
      <Wait>True</Wait>
      <AutoReply>True</AutoReply>
      <NoLogging>False</NoLogging>
    </Header>
    <DataItem />
  </AreYouThere>
  <OnLineData>
    <Header>
      <MessageName>OnLineData</MessageName>
      <Description PairName="S1F1">Are You There Request</Description>
      <Stream>1</Stream>
      <Function>2</Function>
      <Direction>H&lt;-E</Direction>
      <Wait>False</Wait>
      <AutoReply>False</AutoReply>
      <NoLogging>False</NoLogging>
    </Header>
    <DataItem>
      <L Count="2" Fixed="True" ItemName="">
        <A Count="6" Fixed="True" ItemName="MDLN">AIMFAb</A>
        <A Count="6" Fixed="True" ItemName="SOFTREV">V01R01</A>
      </L>
    </DataItem>
  </OnLineData>
</SECSMessage>"#;

#[test]
fn parse_k_erack_sample_header() {
    let xml = SAMPLE;
    let mut cat = MessageCatalog::default();
    let n = cat.import_smd(xml, "test.smd").unwrap();
    assert_eq!(n, 2);
    assert!(cat.messages[0].auto_reply);
    assert!(cat.messages[0].wait);
    assert_eq!(cat.messages[0].stream, 1);
    assert_eq!(cat.messages[0].function, 1);
    assert!(cat.messages[0].is_host_to_equip());

    let reply = cat.find_reply_for(&Role::Equipment, &cat.messages[0]).unwrap();
    assert_eq!(reply.function, 2);
    assert!(reply.is_equip_to_host());
    assert!(!reply.body_tree.is_empty());
    assert_eq!(reply.body_tree[0].item_type, "L");
    assert_eq!(reply.body_tree[0].children[0].name, "MDLN");
    assert_eq!(reply.body_tree[0].children[0].value, "AIMFAb");
    let body = reply.body_secs2().unwrap();
    assert_eq!(body.get_ascii_at(&[0]).unwrap(), "AIMFAb");
    assert_eq!(body.get_ascii_at(&[1]).unwrap(), "V01R01");
}

fn header(stream: u8, function: u8, wbit: bool) -> HsmsHeader {
    HsmsHeader::from_bytes(&[0, 1, stream | if wbit { 0x80 } else { 0 }, function, 0, 0, 0, 0, 0, 5])
}

#[test]
fn catalog_auto_reply_for_equipment() {
    let mut cat = MessageCatalog::default();
    cat.import_smd(SAMPLE, "test.smd").unwrap();
    let r = try_catalog_auto_reply(&cat, &header(1, 1, true), &Role::Equipment).unwrap();
    assert_eq!((r.stream, r.function), (1, 2));
    assert_eq!(r.note, "auto-reply S1F1 \u{2192} S1F2 (OnLineData)");
    assert_eq!(r.body.get_ascii_at(&[1]).unwrap(), "V01R01");
    // A host does not answer host-to-equipment primaries.
    assert!(try_catalog_auto_reply(&cat, &header(1, 1, true), &Role::Host).is_none());
    // Even function without the wait bit: not a primary.
    assert!(try_catalog_auto_reply(&cat, &header(1, 2, false), &Role::Equipment).is_none());
}

#[test]
fn upsert_then_get_and_remove() {
    let mut cat = MessageCatalog::new();
    let mut m = new_blank_message();
    m.message_name = "First".to_string();
    let id = m.id.clone();
    cat.upsert(m.clone());
    assert_eq!(cat.len(), 1);
    let mut m2: PrefabMessage = m.clone();
    m2.message_name = "Second".to_string();
    cat.upsert(m2);
    assert_eq!(cat.len(), 1);
    assert_eq!(cat.get(&id).unwrap().message_name, "Second");
    assert!(cat.remove(&id));
    assert!(cat.get(&id).is_none());
    assert!(!cat.remove(&id));
    assert!(cat.is_empty());
}

#[test]
fn edit_in_place() {
    let mut cat = MessageCatalog::new();
    let m = new_blank_message();
    let id = m.id.clone();
    cat.upsert(m);
    cat.get_mut(&id).unwrap().stream = 6;
    assert_eq!(cat.get(&id).unwrap().stream, 6);
    assert!(cat.get_mut("nope").is_none());
}

#[test]
fn blank_message_defaults() {
    let m = new_blank_message();
    assert_eq!(m.id.len(), 36);
    assert_eq!(m.message_name, "NewMessage");
    assert_eq!(m.sx_fy(), "S1F1");
    assert!(m.wait);
}

#[test]
fn smd_errors_leave_catalog_unchanged() {
    let mut cat = MessageCatalog::default();
    cat.import_smd(SAMPLE, "a.smd").unwrap();
    let err = cat.import_smd("<Other/>", "b.smd").unwrap_err();
    assert_eq!(err.message(), "expected root <SECSMessage>, got <Other>");
    assert_eq!(cat.len(), 2);
    assert_eq!(cat.source, "a.smd");
    let err = cat.import_smd("<SECSMessage><M><Header></Header></M></SECSMessage>", "c.smd").unwrap_err();
    assert_eq!(err.message(), "missing Stream");
    let err = cat.import_smd("<SECSMessage><M>", "d.smd").unwrap_err();
    let text = err.message();
    assert!(text.starts_with("SMD XML parse error: "));
    assert!(text.len() > "SMD XML parse error: ".len());
    assert_eq!(cat.source, "a.smd");
}

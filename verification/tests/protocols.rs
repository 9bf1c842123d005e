use ewc::codegen::{gen_interface, gen_interfaces, generate};
use ewc::protocol_reader::{read_protocol, ScanError};
use ewc::protocol_tables::{enum_value, find_enum, find_interface, find_message, interface_descs};
use ewc::protocol_text::{chars_of, ArgumentText, DocText, EntryText, EnumText, InterfaceText, MessageText};
use ewc::scanner::{ArgKind, CodeType, Decoding, DocLine, Encoding, RequestShape, WireType};
use ewc::wayland_core::ArgSpec;

const TEXT: &str = r#"<?xml version="1.0" encoding="UTF-8"?>
<protocol name="things">
  <interface name="wl_thing" version="3">
    <description summary="a thing &amp; more">
      One line.
      Since version 2, another one.
    </description>
    <enum name="kind" bitfield="true">
      <entry name="small" value="1" summary="a small one"/>
      <entry name="90_flipped" value="0x10" since="2"/>
    </enum>
    <request name="destroy" type="destructor">
    </request>
    <request name="get_other" since="3">
      <arg name="id" type="new_id" interface="wl_other" summary="the new one"/>
      <arg name="kind" type="uint" enum="kind"/>
      <arg name="mode" type="uint" enum="wl_other.mode"/>
      <arg name="label" type="string" allow-null="true"/>
    </request>
    <event name="done">
      <arg name="thing" type="object" interface="wl_thing"/>
    </event>
  </interface>
  <interface name="wl_other" version="1">
    <enum name="mode">
      <entry name="off" value="0"/>
      <entry name="on" value="7"/>
    </enum>
    <event name="gone" type="destructor">
    </event>
  </interface>
</protocol>
"#;

fn text_with(interface: &str) -> String {
    format!("<protocol name=\"p\"><interface name=\"i\" version=\"1\">{interface}</interface></protocol>")
}

#[test]
fn protocol_is_read() {
    let interfaces = read_protocol(TEXT).unwrap();
    assert_eq!(interfaces.len(), 2);
    let thing = &interfaces[0];
    assert_eq!((&thing.name, thing.version), (&chars_of("wl_thing"), 3));
    let doc = thing.description.as_ref().unwrap();
    assert_eq!(doc.summary, Some(chars_of("a thing & more")));
    assert!(doc.text.as_ref().unwrap().starts_with(&chars_of("One line.\n")));
    assert_eq!((thing.requests.len(), thing.events.len(), thing.enums.len()), (2, 1, 1));
    assert_eq!(thing.requests[0].kind, Some("destructor".to_string()));
    assert_eq!((thing.requests[0].since, thing.requests[1].since), (1, 3));
    let kind = &thing.enums[0];
    assert!(kind.is_bitfield);
    assert_eq!((kind.items[1].value, kind.items[1].since), (0x10, 2));
    assert_eq!(kind.items[0].description.as_ref().unwrap().summary, Some(chars_of("a small one")));
    let args = &thing.requests[1].args;
    assert_eq!(args[0].summary, Some(chars_of("the new one")));
    assert!(matches!(&args[0].kind, ArgKind::NewId { iface: Some(name) } if *name == chars_of("wl_other")));
    assert!(matches!(&args[2].kind, ArgKind::Enum(name) if *name == chars_of("wl_other.mode")));
    assert!(matches!(&args[3].kind, ArgKind::Text { allow_null: true }));
    assert!(!interfaces[1].enums[0].is_bitfield);
}

#[test]
fn code_is_made_of_a_text() {
    let generated = generate(TEXT).unwrap();
    assert_eq!(generated.interfaces.len(), 2);
    let code = &generated.codes[0];
    assert_eq!((&code.wire_name, code.version), (&chars_of("wl_thing"), 3));
    assert_eq!(code.proxy_name, chars_of("WlThing"));
    assert_eq!(
        code.doc,
        vec![
            DocLine::Summary,
            DocLine::Blank,
            DocLine::Text(0),
            DocLine::Text(1),
            DocLine::Blank,
            DocLine::Blank,
        ]
    );
    let destroy = &code.requests[0];
    assert_eq!((&destroy.message.wire_name, destroy.message.is_destructor), (&chars_of("destroy"), true));
    let get = &code.requests[1];
    assert_eq!((&get.message.wire_name, get.message.opcode), (&chars_of("get_other"), 1));
    assert_eq!((&get.name, &get.args_name), (&chars_of("GetOther"), &Some(chars_of("GetOtherArgs"))));
    let names: Vec<&Vec<char>> = get.message.args.iter().map(|arg| &arg.name).collect();
    assert_eq!(names, vec![&chars_of("id"), &chars_of("kind"), &chars_of("mode"), &chars_of("label")]);
    let wires: Vec<WireType> = get.message.args.iter().map(|arg| arg.wire).collect();
    assert_eq!(wires, vec![WireType::NewId, WireType::Uint, WireType::Uint, WireType::OptText]);
    assert_eq!(code.events[0].wire_name, chars_of("done"));
    assert_eq!(code.enums[0].items[1].name, chars_of("_90_flipped"));
    assert!(generated.codes[1].events[0].is_destructor);
}

#[test]
fn unreadable_texts_are_refused() {
    let unreadable = |text: &str| matches!(generate(text), Err(ScanError::Unreadable));
    assert!(unreadable(r#"<protocol name="p"><interface name="i" version="x"></interface></protocol>"#));
    assert!(unreadable(r#"<protocol name="p"><interface name="i" version=""></interface></protocol>"#));
    assert!(unreadable(&text_with(r#"<request name="r" since="-1"></request>"#)));
    assert!(unreadable(&text_with(r#"<request name="r" deprecated-since="new"></request>"#)));
    assert!(unreadable(&text_with(r#"<enum name="e"><entry name="a" value="0xg"/></enum>"#)));
    assert!(unreadable(&text_with(r#"<enum name="e"><entry name="a" value="4294967296"/></enum>"#)));
    assert!(unreadable(&text_with(r#"<enum name="e"><entry name="a" value="0x100000000"/></enum>"#)));
    assert!(unreadable(&text_with(r#"<enum name="e"><entry name="a" value="1" since="0x1"/></enum>"#)));
    assert!(unreadable(&text_with(r#"<enum name="e"><entry value="1" value=""></entry></enum>"#)));
    assert!(unreadable(&text_with(r#"<enum name="e" bitfield="&what;"></enum>"#)));
    assert!(unreadable(&text_with(r#"<description summary="&what;"></description>"#)));
    assert!(unreadable(&text_with(r#"<event name="e"><description summary="&#0;"/></event>"#)));
    assert!(unreadable(&text_with(r#"<event name="e"><description summary="&amp"/></event>"#)));
}

fn values_of(entries: &str) -> Vec<u32> {
    let text = text_with(&format!("<enum name=\"e\">{entries}</enum>"));
    read_protocol(&text).unwrap()[0].enums[0].items.iter().map(|item| item.value).collect()
}

#[test]
fn numbers_of_32_bits_are_read() {
    assert_eq!(values_of(r#"<entry name="a" value="4294967295"/>"#), vec![u32::MAX]);
    assert_eq!(values_of(r#"<entry name="a" value='0xFFffFFff'/>"#), vec![u32::MAX]);
    assert_eq!(values_of(r#"<entry name="a" value="00000000000012"/>"#), vec![12]);
    assert_eq!(values_of(r#"<entry name="a" value="+7"/><entry name="b" value="0x+f"/>"#), vec![7, 15]);
    assert_eq!(values_of("<entry name='a' value \n=\t \"3\" />"), vec![3]);
    assert_eq!(values_of(r#"<entry name="a" value="&#x31;&#48;"/>"#), vec![10]);
    assert_eq!(values_of(r#"<entry name="a" value="&#48;x1f"></entry>"#), vec![31]);
    assert_eq!(values_of(r#"<entry name="a" value="x" value="5"/>"#), vec![5]);
}

#[test]
fn references_in_summaries_are_read() {
    let text = text_with(r#"<description summary="&#169; &#x1F600; &lt;a&gt; &quot;b&quot; &apos;"></description>"#);
    let summary = read_protocol(&text).unwrap()[0].description.as_ref().unwrap().summary.clone();
    assert_eq!(summary, Some(chars_of("\u{a9} \u{1f600} <a> \"b\" '")));
}

#[test]
fn only_attributes_have_to_be_numbers() {
    let read = |text: &str| read_protocol(text).unwrap().len();
    assert_eq!(read(&text_with(r#"<description>Where value="x", since = y; version= 'z'.</description>"#)), 1);
    assert_eq!(read(&text_with(r#"<description><entry value="x"/><enum bitfield="&a;"></enum></description>"#)), 1);
    assert_eq!(read(&text_with(r#"<!-- <entry name="a" value="later"/> --><request name="r" since="x"/>"#)), 1);
    assert_eq!(read(&text_with(r#"<![CDATA[<enum bitfield="&a;">]]><?note <event name="e" since="x"> ?>"#)), 1);
    assert_eq!(read(&text_with(r#"<description summary="&what;"/>"#)), 1);
    let arg = r#"<request name="r"><arg name="a" type="int" value="x" since="y" summary="version"/></request>"#;
    assert_eq!(read(&text_with(arg)), 1);
    let doctype = r#"<!DOCTYPE p SYSTEM "a>b" [ <!-- ]> --> <!ENTITY e "<entry value='x'>]"> <?a ]> ?> ]>"#;
    assert_eq!(read(&format!("\u{feff}{doctype}{}", text_with(""))), 1);
    assert_eq!(read(&format!("{}<interface name='i' version='x'>", text_with(""))), 1);
}

#[test]
fn first_fault_of_a_text_is_told() {
    let parse = |text: &str| matches!(generate(text), Err(ScanError::Parse(_)));
    assert!(parse(r#"<thing><interface name="i" version="x"></interface></thing>"#));
    assert!(parse(r#"<protocol name="p"><interface name="i" version="&#;"></interface></protocol>"#));
    assert!(parse(r#"<protocol name="p"><interface name=i version="x"></interface></protocol>"#));
    assert!(parse(&text_with(r#"<request name="r" since"></request>"#)));
    assert!(parse(&text_with(r#"<arg name="a"></arg><request name="r" since="x"></request>"#)));
    assert!(parse("<protocol name=\"p\"><!-- <interface name=\"i\" version=\"x\"></interface>"));
    assert!(parse("<protocol name=\"p\"><!ELEMENT a><interface name=\"i\" version=\"x\">"));
}

#[test]
fn texts_that_are_no_protocols_are_refused() {
    let error = |text: &str| match generate(text) {
        Err(ScanError::Parse(e)) => e,
        _ => panic!("no error of the parser"),
    };
    assert_eq!(error(""), "unexpeced end of file");
    assert_eq!(error("<thing></thing>"), "unexpected tag: thing");
    assert_eq!(error("<protocol></protocol>"), "missing attribute: protocol.name");
    let bad = r#"<request name="r"><arg name="a" type="thing"/></request>"#;
    assert_eq!(error(&text_with(bad)), "unexpected argument type: thing");
}

#[test]
fn items_without_names_get_no_code() {
    let unsound = |text: &str| matches!(generate(&text_with(text)), Err(ScanError::Unsound));
    assert!(unsound(r#"<request name=""></request>"#));
    assert!(unsound(r#"<enum name=""></enum>"#));
    assert!(unsound(r#"<event name="e"><arg name="a" type="new_id"/></event>"#));
    assert!(!unsound(r#"<request name="e"><arg name="a" type="new_id"/></request>"#));
}

#[test]
fn items_are_found_by_their_names() {
    let interfaces = read_protocol(TEXT).unwrap();
    assert_eq!(find_interface(&interfaces, &chars_of("wl_other")), Some(1));
    assert_eq!(find_interface(&interfaces, &chars_of("wl_none")), None);
    assert_eq!(find_message(&interfaces[0].requests, &chars_of("get_other")), Some(1));
    assert_eq!(find_message(&interfaces[0].requests, &chars_of("done")), None);
    let own = find_enum(&interfaces, 0, &chars_of("kind")).unwrap();
    assert_eq!(enum_value(own, &chars_of("90_flipped")), Some(16));
    assert_eq!(enum_value(own, &chars_of("big")), None);
    let other = find_enum(&interfaces, 0, &chars_of("wl_other.mode")).unwrap();
    assert_eq!(enum_value(other, &chars_of("on")), Some(7));
    assert!(find_enum(&interfaces, 0, &chars_of("mode")).is_none());
    assert!(find_enum(&interfaces, 1, &chars_of("wl_none.mode")).is_none());
}

#[test]
fn requests_say_what_their_arguments_have_to_be() {
    let generated = generate(TEXT).unwrap();
    let descs = interface_descs(&generated.interfaces).unwrap();
    assert_eq!(descs.len(), 2);
    assert_eq!(descs[1].requests.len(), 0);
    let destroy = &descs[0].requests[0];
    assert!(destroy.is_destructor && destroy.signature.is_empty());
    let get = &descs[0].requests[1];
    assert!(!get.is_destructor);
    assert!(matches!(get.signature[0], ArgSpec::NewId { interface: Some(1) }));
    assert!(matches!(&get.signature[1], ArgSpec::Enum { bitfield: true, values } if *values == vec![1, 16]));
    assert!(matches!(&get.signature[2], ArgSpec::Enum { bitfield: false, values } if *values == vec![0, 7]));
    assert!(matches!(get.signature[3], ArgSpec::String { allow_null: true }));
    assert_eq!(get.signature.len(), generated.codes[0].requests[1].message.args.len());
}

#[test]
fn requests_name_only_what_is_there() {
    let known = |args: &str| {
        let text = text_with(&format!("<request name=\"r\">{args}</request>"));
        interface_descs(&read_protocol(&text).unwrap()).is_some()
    };
    assert!(known(r#"<arg name="a" type="object" interface="i"/>"#));
    assert!(known(r#"<arg name="a" type="object"/>"#));
    assert!(!known(r#"<arg name="a" type="object" interface="j"/>"#));
    assert!(!known(r#"<arg name="a" type="new_id" interface="j"/>"#));
    assert!(!known(r#"<arg name="a" type="uint" enum="e"/>"#));
    assert!(!known(r#"<arg name="a" type="uint" enum="j.e"/>"#));
}

fn message(name: &str, kind: Option<&str>, kinds: Vec<ArgKind>) -> MessageText {
    let args = kinds.into_iter().map(|kind| ArgumentText { name: chars_of("arg"), kind, summary: None }).collect();
    MessageText { name: chars_of(name), kind: kind.map(|k| k.to_string()), since: 1, description: None, args }
}

fn doc() -> Option<DocText> {
    Some(DocText { summary: Some(chars_of("summary")), text: Some(chars_of("text")) })
}

fn interface(requests: Vec<MessageText>, events: Vec<MessageText>) -> InterfaceText {
    let item = EntryText { name: chars_of("90_flipped"), value: 5, since: 2, description: doc() };
    let en = EnumText { name: chars_of("turn_kind"), is_bitfield: true, description: doc(), items: vec![item] };
    InterfaceText { name: chars_of("wl_thing"), version: 4, description: doc(), requests, events, enums: vec![en] }
}

#[test]
fn code_of_an_interface() {
    let surface = Some(chars_of("wl_surface"));
    let iface = interface(
        vec![
            message("destroy", Some("destructor"), vec![]),
            message("set_kind", None, vec![ArgKind::Enum(chars_of("wl_output.transform"))]),
            message(
                "get_thing",
                None,
                vec![ArgKind::NewId { iface: None }, ArgKind::Object { allow_null: true, iface: surface }],
            ),
        ],
        vec![message("done", None, vec![ArgKind::Enum(chars_of("turn_kind"))])],
    );
    assert!(iface.is_sound());
    let code = gen_interface(&iface);
    assert_eq!((code.wire_name, code.version), (chars_of("wl_thing"), 4));
    assert_eq!((code.proxy_name, code.title), (chars_of("WlThing"), chars_of("WlThing")));
    assert_eq!(code.doc, vec![DocLine::Summary, DocLine::Blank, DocLine::Text(0), DocLine::Blank, DocLine::Blank]);
    let opcodes: Vec<u16> = code.requests.iter().map(|r| r.message.opcode).collect();
    assert_eq!(opcodes, vec![0, 1, 2]);
    let destroy = &code.requests[0];
    assert_eq!((destroy.shape, destroy.message.is_destructor), (RequestShape::Unit, true));
    assert_eq!(destroy.args_name, None);
    let set_kind = &code.requests[1];
    assert_eq!((set_kind.shape, set_kind.message.is_destructor), (RequestShape::Single, false));
    assert_eq!((&set_kind.name, &set_kind.message.wire_name), (&chars_of("SetKind"), &chars_of("set_kind")));
    let path = set_kind.message.args[0].enum_path.as_ref().unwrap();
    assert_eq!((path.iface.as_ref(), &path.name), (Some(&chars_of("wl_output")), &chars_of("Transform")));
    let get_thing = &code.requests[2];
    assert_eq!((&get_thing.name, get_thing.shape), (&chars_of("GetThing"), RequestShape::Struct));
    assert_eq!(get_thing.args_name, Some(chars_of("GetThingArgs")));
    assert_eq!(get_thing.message.args[0].decoding, Decoding::AnyNewId);
    assert_eq!(get_thing.message.args[0].proxy, None);
    let object = &get_thing.message.args[1];
    assert_eq!((object.wire, object.ty), (WireType::OptObject, CodeType::OptProxy));
    assert_eq!((object.decoding, object.encoding), (Decoding::OptLookup, Encoding::OptObjectId));
    assert_eq!(object.proxy, Some(chars_of("WlSurface")));
    let own = code.events[0].args[0].enum_path.as_ref().unwrap();
    assert_eq!((own.iface.as_ref(), &own.name), (None, &chars_of("TurnKind")));
    assert_eq!(code.events[0].doc[1..], [DocLine::Blank, DocLine::Since(1), DocLine::Blank]);
    let en = &code.enums[0];
    assert_eq!((&en.name, en.is_bitfield), (&chars_of("TurnKind"), true));
    assert_eq!((&en.items[0].name, en.items[0].value), (&chars_of("_90_flipped"), 5));
}

#[test]
fn code_needs_names() {
    let request = |name: &str, args: Vec<ArgKind>| interface(vec![message(name, None, args)], vec![]).is_sound();
    assert!(request("a", vec![]));
    assert!(!request("", vec![]));
    assert!(!request("a", vec![ArgKind::Enum(chars_of("b."))]));
    assert!(!request("a", vec![ArgKind::Enum(chars_of(""))]));
    assert!(!request("a", vec![ArgKind::Object { allow_null: false, iface: Some(chars_of("")) }]));
    assert!(request("a", vec![ArgKind::NewId { iface: None }]));
    let event = interface(vec![], vec![message("a", None, vec![ArgKind::NewId { iface: None }])]);
    assert!(!event.is_sound());
    assert!(gen_interfaces(&vec![interface(vec![], vec![]), event]).is_none());
    assert_eq!(gen_interfaces(&vec![interface(vec![], vec![])]).unwrap().len(), 1);
}

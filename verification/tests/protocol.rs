use pipeline::dispatch::fsmonitor_fallback_io;
use pipeline::error::PipelineError;
use pipeline::native::NativeText;
use pipeline::protocol::{
    proc_receive_fallthrough_io, write_flush, write_packet, FallThrough, PacketHead, MAX_REF_INPUT,
};

fn packet(payload: &[u8], output: &mut Vec<u8>) {
    output.extend_from_slice(format!("{:04x}", payload.len() + 4).as_bytes());
    output.extend_from_slice(payload);
}

fn native(words: &[&str]) -> Vec<NativeText> {
    words.iter().map(|word| NativeText::from_text(word)).collect()
}

fn failure(input: &[u8]) -> (Vec<u8>, String) {
    let (output, result) = proc_receive_fallthrough_io(input);
    (output, result.unwrap_err().message())
}

#[test]
fn proc_receive_missing_trigger_falls_through() {
    let mut input = Vec::new();
    packet(b"version=1\0atomic push-options\n", &mut input);
    input.extend_from_slice(b"0000");
    packet(
        b"0000000000000000000000000000000000000000 1111111111111111111111111111111111111111 refs/for/main\n",
        &mut input,
    );
    input.extend_from_slice(b"0000");

    let (output, result) = proc_receive_fallthrough_io(&input);
    result.unwrap();

    let mut expected = Vec::new();
    packet(b"version=1\0atomic\n", &mut expected);
    expected.extend_from_slice(b"0000");
    packet(b"ok refs/for/main\n", &mut expected);
    packet(b"option fall-through\n", &mut expected);
    expected.extend_from_slice(b"0000");
    assert_eq!(output, expected);
}

#[test]
fn fsmonitor_missing_trigger_forces_a_full_scan() {
    let (output, code) = fsmonitor_fallback_io(&native(&["1", "old-clock"]));
    assert_eq!(code, 0);
    assert_eq!(output, b"/\0");

    let (output, code) = fsmonitor_fallback_io(&native(&["2", "old-clock"]));
    assert_eq!(code, 0);
    assert_eq!(output, b"old-clock\0/\0");

    let (output, code) = fsmonitor_fallback_io(&native(&["2"]));
    assert_eq!(code, 1);
    assert!(output.is_empty());
}

#[test]
fn unknown_monitor_versions_make_git_scan() {
    for arguments in [native(&[]), native(&["3", "clock"]), native(&["one"])] {
        assert_eq!(fsmonitor_fallback_io(&arguments), (Vec::new(), 1));
    }
}

#[test]
fn commands_keep_their_order_and_greetings_without_atomic_are_answered_so() {
    let mut input = Vec::new();
    packet(b"version=1\0push-options atomicity\n", &mut input);
    packet(b"extra", &mut input);
    input.extend_from_slice(b"0000");
    packet(b"a b refs/one\n", &mut input);
    packet(b"a b refs/two words", &mut input);
    input.extend_from_slice(b"0000trailing");

    let (output, result) = proc_receive_fallthrough_io(&input);
    result.unwrap();
    let mut expected = Vec::new();
    packet(b"version=1\0\n", &mut expected);
    expected.extend_from_slice(b"0000");
    packet(b"ok refs/one\n", &mut expected);
    packet(b"option fall-through\n", &mut expected);
    packet(b"ok refs/two words\n", &mut expected);
    packet(b"option fall-through\n", &mut expected);
    expected.extend_from_slice(b"0000");
    assert_eq!(output, expected);
}

#[test]
fn broken_packets_are_refused() {
    assert_eq!(failure(b"00").1, "failed to fill whole buffer");
    assert_eq!(failure(b"00zz").1, "invalid proc-receive packet header");
    assert_eq!(failure(b"0003").1, "unsupported proc-receive control packet");
    assert_eq!(failure(b"0009ab").1, "failed to fill whole buffer");
    let (output, message) = failure(b"00000008abcd");
    assert_eq!(message, "invalid command in proc-receive protocol");
    assert_eq!(output, b"000fversion=1\0\n0000");
    assert_eq!(
        failure(b"00000009a b \n").1,
        "invalid command in proc-receive protocol"
    );
}

#[test]
fn headers_are_read_in_both_cases_and_with_a_sign() {
    let talk = FallThrough::new();
    assert!(matches!(talk.head(b"000A"), Ok(PacketHead::Data(6))));
    assert!(matches!(talk.head(b"ffff"), Ok(PacketHead::Data(65531))));
    assert!(matches!(talk.head(b"+00a"), Ok(PacketHead::Data(6))));
    assert!(matches!(talk.head(b"0000"), Ok(PacketHead::Flush)));
    assert!(talk.head(b"-00a").is_err());
    assert!(talk.head(b"0+0a").is_err());
}

#[test]
fn too_much_input_is_refused() {
    let mut talk = FallThrough::new();
    let block = vec![b'x'; 65531];
    let mut total = 0u64;
    while total + 65531 <= MAX_REF_INPUT {
        assert!(matches!(talk.head(b"ffff"), Ok(PacketHead::Data(65531))));
        talk = talk.hear(&block).ok().unwrap();
        total += 65531;
    }
    let error = talk.head(b"ffff").err().unwrap();
    assert_eq!(error.message(), "proc-receive input exceeds 16 MiB");
}

#[test]
fn packets_are_written_with_their_length() {
    let mut output = Vec::new();
    write_packet(&mut output, b"hello").unwrap();
    write_flush(&mut output);
    assert_eq!(output, b"0009hello0000");
    let mut output = Vec::new();
    let error = write_packet(&mut output, &vec![0; 65532]).unwrap_err();
    assert_eq!(
        error,
        PipelineError::Message("proc-receive packet is too large".to_owned())
    );
    assert!(output.is_empty());
    write_packet(&mut output, &vec![0; 65531]).unwrap();
    assert_eq!(&output[..4], b"ffff");
}

#[test]
fn an_answer_that_does_not_fit_ends_the_conversation() {
    let mut input = b"0000".to_vec();
    packet(b"a b short\n", &mut input);
    let mut long = b"  ".to_vec();
    long.extend_from_slice(&vec![b'r'; 65529]);
    packet(&long, &mut input);
    input.extend_from_slice(b"0000");
    let (output, message) = failure(&input);
    assert_eq!(message, "proc-receive packet is too large");
    let mut expected = b"000fversion=1\0\n0000".to_vec();
    packet(b"ok short\n", &mut expected);
    packet(b"option fall-through\n", &mut expected);
    assert_eq!(output, expected);
}

#[test]
fn a_conversation_can_be_held_packet_by_packet() {
    let talk = FallThrough::new();
    let talk = talk.hear(b"version=1\0 atomic").ok().unwrap();
    let (talk, greeting, outcome) = talk.end();
    outcome.unwrap();
    assert_eq!(greeting, b"0015version=1\0atomic\n0000");
    assert!(!talk.is_finished());
    let talk = talk.hear(b"x y z").ok().unwrap();
    let (talk, answers, outcome) = talk.end();
    outcome.unwrap();
    assert_eq!(answers, b"0009ok z\n0018option fall-through\n0000");
    assert!(talk.is_finished());
}

use ttymon::filter::{Filter, FilterState};

fn filtered(input: &[u8]) -> Filter {
    let mut filter = Filter::new();
    filter.fill(input);
    filter
}

#[test]
fn test_csi() {
    let mut filter = Filter::new();
    filter.fill(b"\x1b[105m\x1b[0m");
    assert_eq!(filter.buffer(), b"\x1b[105m\x1b[0m");
}

#[test]
fn csi_with_several_params_is_reemitted() {
    let filter = filtered(b"\x1b[1;31;42mred\x1b[2J");
    assert_eq!(filter.buffer(), b"\x1b[1;31;42mred\x1b[2J");
}

#[test]
fn osc_title_bel_terminated_is_captured() {
    let filter = filtered(b"\x1b]0;hello\x07");
    assert_eq!(filter.buffer(), b"");
    assert_eq!(filter.in_window_title(), "hello");
}

#[test]
fn osc_title_st_terminated_is_captured() {
    let filter = filtered(b"\x1b]0;hello\x1b\\");
    assert_eq!(filter.buffer(), b"");
    assert_eq!(filter.in_window_title(), "hello");
}

#[test]
fn other_osc_keeps_bel_terminator() {
    let filter = filtered(b"\x1b]2;x\x07");
    assert_eq!(filter.buffer(), b"\x1b]2;x\x07");
    assert_eq!(filter.in_window_title(), "ttymon");
}

#[test]
fn other_osc_keeps_st_terminator() {
    let filter = filtered(b"\x1b]2;x\x1b\\after");
    assert_eq!(filter.buffer(), b"\x1b]2;x\x1b\\after");
}

#[test]
fn invalid_utf8_title_is_ignored() {
    let filter = filtered(b"\x1b]0;\xff\xfe\x07");
    assert_eq!(filter.buffer(), b"");
    assert_eq!(filter.in_window_title(), "ttymon");
}

#[test]
fn plain_text_passes_through() {
    let filter = filtered(b"hello\n");
    assert_eq!(filter.buffer(), b"hello\n");
    assert_eq!(filter.in_window_title(), "ttymon");
}

#[test]
fn multibyte_text_passes_through() {
    let filter = filtered("h\u{e9}llo \u{2603}\r\n".as_bytes());
    assert_eq!(filter.buffer(), "h\u{e9}llo \u{2603}\r\n".as_bytes());
}

#[test]
fn plain_escape_passes_through() {
    let filter = filtered(b"\x1b7\x1b(B\x1b8");
    assert_eq!(filter.buffer(), b"\x1b7\x1b(B\x1b8");
}

#[test]
fn dcs_passes_through() {
    let filter = filtered(b"\x1bPqraw-bytes\x1b\\");
    assert_eq!(filter.buffer(), b"\x1bPqraw-bytes\x1b\\");
}

#[test]
fn dcs_with_params_passes_through() {
    let filter = filtered(b"\x1bP1;2|x\x1b\\");
    assert_eq!(filter.buffer(), b"\x1bP1;2|x\x1b\\");
}

#[test]
fn outbound_title_outside_dcs() {
    let mut filter = Filter::new();
    filter.set_out_window_title("t");
    assert_eq!(filter.buffer(), b"\x1b]0;t\x1b\\");
}

#[test]
fn outbound_title_deferred_in_dcs() {
    let mut filter = Filter::new();
    filter.fill(b"\x1bPqraw-");
    filter.set_out_window_title("X");
    assert_eq!(filter.buffer(), b"\x1bPqraw-");
    filter.fill(b"bytes\x1b\\");
    assert_eq!(filter.buffer(), b"\x1bPqraw-bytes\x1b\\\x1b]0;X\x1b\\");
    filter.fill(b"z");
    assert_eq!(filter.buffer(), b"\x1bPqraw-bytes\x1b\\\x1b]0;X\x1b\\z");
}

#[test]
fn same_outbound_title_twice() {
    let mut filter = Filter::new();
    filter.set_out_window_title("t");
    filter.set_out_window_title("t");
    assert_eq!(filter.buffer(), b"\x1b]0;t\x1b\\");
    filter.clear_buffer();
    filter.set_out_window_title("u");
    assert_eq!(filter.buffer(), b"\x1b]0;u\x1b\\");
}

#[test]
fn captured_title_then_outbound_title() {
    let mut filter = filtered(b"\x1b]0;my-app\x07");
    assert_eq!(filter.buffer(), b"");
    filter.clear_buffer();
    assert_eq!(filter.in_window_title(), "my-app");
    filter.set_out_window_title("cwd - bash - my-app");
    assert_eq!(filter.buffer(), b"\x1b]0;cwd - bash - my-app\x1b\\");
}

#[test]
fn clear_buffer_empties_output() {
    let mut filter = filtered(b"abc");
    filter.clear_buffer();
    assert_eq!(filter.buffer(), b"");
    assert_eq!(filter.current_directory(), "");
}

#[test]
fn state_callbacks_write_canonical_bytes() {
    let mut state = FilterState::new();
    state.csi_dispatch(&vec![vec![38, 5], vec![196]], b"", 'm');
    state.esc_dispatch(b"(", b'B');
    state.execute(0x0d);
    state.print('\u{e9}');
    assert_eq!(state.buffer(), b"\x1b[38;5;196m\x1b(B\r\xc3\xa9");
}

#[test]
fn state_hook_default_params_are_omitted() {
    let mut state = FilterState::new();
    state.hook(&vec![vec![0]], b"", 'q');
    state.put(b'#');
    state.unhook();
    assert_eq!(state.buffer(), b"\x1bPq#\x1b\\");
}

#[test]
fn state_osc_with_three_params() {
    let mut state = FilterState::new();
    state.osc_dispatch(&vec![b"0".to_vec(), b"a".to_vec(), b"b".to_vec()], true);
    assert_eq!(state.buffer(), b"\x1b]0;a;b\x07");
    assert_eq!(state.in_window_title(), "ttymon");
}

#[test]
fn csi_params_are_written_in_canonical_form() {
    let filter = filtered(b"\x1b[01;002m");
    assert_eq!(filter.buffer(), b"\x1b[1;2m");
}

use braidinfer_runtime::op_profile::{
    get_global, install_global, opcode_name, table_order, total_ticks,
    uninstall_global, OpProfile, ProfileGlobal, NUM_SLOTS,
};

#[test]
fn opcodes_have_their_names() {
    assert_eq!(opcode_name(0), "OP_HALT");
    assert_eq!(opcode_name(16), "OP_LM_HEAD");
    assert_eq!(opcode_name(43), "OP_MOE_FFN_REMOTE");
    assert_eq!(opcode_name(44), "OP_UNKNOWN");
    assert_eq!(opcode_name(u32::MAX), "OP_UNKNOWN");
}

#[test]
fn the_global_pointer_comes_and_goes() {
    let mut global = ProfileGlobal { ptr: 0 };
    assert_eq!(get_global(&global), 0);
    let profile = OpProfile::at_address(0xABCD);
    install_global(&mut global, &profile);
    assert_eq!(get_global(&global), 0xABCD);
    assert_eq!(profile.device_ptr(), 0xABCD);
    uninstall_global(&mut global);
    assert_eq!(get_global(&global), 0);
}

#[test]
fn only_called_opcodes_are_reported() {
    let mut raw = vec![0u64; OpProfile::counter_words()];
    assert_eq!(raw.len(), 2 * NUM_SLOTS);
    raw[2 * 3] = 500;
    raw[2 * 3 + 1] = 10;
    raw[2 * 16] = 900;
    raw[2 * 16 + 1] = 1;
    raw[2 * 5] = 77; // ticks without calls
    raw[2 * 63] = 500;
    raw[2 * 63 + 1] = 4;
    let stats = OpProfile::dump_after_shutdown(&raw);
    assert_eq!(stats.len(), 3);
    assert_eq!(stats[0].opcode, 3);
    assert_eq!(stats[0].name, "OP_RMSNORM");
    assert_eq!(stats[0].calls, 10);
    assert_eq!(stats[0].ticks_total, 500);
    assert_eq!(stats[1].opcode, 16);
    assert_eq!(stats[2].name, "OP_UNKNOWN");
    assert_eq!(total_ticks(&stats), 1900);
    assert_eq!(table_order(&stats), vec![1, 0, 2]);
}

#[test]
fn an_empty_table_has_no_rows() {
    assert_eq!(total_ticks(&[]), 0);
    assert!(table_order(&[]).is_empty());
}

use local_stack_core::environment::parse_nvidia_csv;

#[test]
fn parses_multiple_nvidia_gpus() {
    let result = parse_nvidia_csv(
        "NVIDIA GeForce RTX 5090, 581.80, 32607, 12288, 20319\nNVIDIA RTX 4000, 581.80, 16376, 16, 16360\n",
    );
    assert_eq!(result.len(), 2);
    assert_eq!(result[0].name, "NVIDIA GeForce RTX 5090");
    assert_eq!(result[0].memory_total_mib, 32607);
    assert_eq!(result[1].memory_free_mib, 16360);
}

#[test]
fn ignores_malformed_nvidia_rows() {
    let result = parse_nvidia_csv("not,a,complete,row\n");
    assert!(result.is_empty());
}

#[test]
fn keeps_well_formed_rows_around_bad_ones() {
    let result = parse_nvidia_csv("A, 1.0, 10, 4, 6\nbroken\nB, 2.0, x, 1, 1\r\nC, 3.0, 20, 5, 15\r\n");
    assert_eq!(result.len(), 2);
    assert_eq!(result[0].name, "A");
    assert_eq!(result[0].driver_version, "1.0");
    assert_eq!(result[0].memory_used_mib, 4);
    assert_eq!(result[1].name, "C");
    assert_eq!(result[1].memory_free_mib, 15);
    assert!(parse_nvidia_csv("").is_empty());
}

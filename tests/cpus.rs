use rapl_probes::cpus::{check_socket_cpus, parse_cpu_and_socket_list, parse_cpu_list, CpuId};
use rapl_probes::RaplError;

#[test]
fn test_parse_cpumask() -> Result<(), RaplError> {
    let single = "0";
    assert_eq!(parse_cpu_and_socket_list(single)?, vec![CpuId { cpu: 0, socket: 0 }]);

    let comma = "0,64";
    assert_eq!(
        parse_cpu_and_socket_list(comma)?,
        vec![CpuId { cpu: 0, socket: 0 }, CpuId { cpu: 64, socket: 1 }]
    );

    let caret = "0-1";
    assert_eq!(
        parse_cpu_and_socket_list(caret)?,
        vec![CpuId { cpu: 0, socket: 0 }, CpuId { cpu: 1, socket: 1 }]
    );

    let combined = "1-3,5-6";
    assert_eq!(
        parse_cpu_and_socket_list(combined)?,
        vec![
            CpuId { cpu: 1, socket: 0 },
            CpuId { cpu: 2, socket: 1 },
            CpuId { cpu: 3, socket: 2 },
            CpuId { cpu: 5, socket: 3 },
            CpuId { cpu: 6, socket: 4 },
        ]
    );

    Ok(())
}

#[test]
fn cpu_list_ignores_trailing_newline() {
    assert_eq!(parse_cpu_list("0-3,8\n").unwrap(), vec![0, 1, 2, 3, 8]);
}

#[test]
fn cpu_list_reversed_range_is_empty() {
    assert_eq!(parse_cpu_list("5-3,7").unwrap(), vec![7]);
}

#[test]
fn cpu_list_accepts_plus_sign() {
    assert_eq!(parse_cpu_list("+4").unwrap(), vec![4]);
}

#[test]
fn cpu_list_rejects_malformed_items() {
    for bad in ["", "a", "1-", "-1", "1-2-3", "1,,2", "4294967296", "1 ,2", " 1"] {
        assert_eq!(parse_cpu_list(bad), Err(RaplError::InvalidCpuList), "input {bad:?}");
    }
}

#[test]
fn cpu_list_largest_cpu_number() {
    assert_eq!(parse_cpu_list("4294967295").unwrap(), vec![u32::MAX]);
    assert_eq!(parse_cpu_list("4294967294-4294967295").unwrap(), vec![u32::MAX - 1, u32::MAX]);
}

#[test]
fn socket_list_error_is_invalid_cpu_list() {
    assert_eq!(parse_cpu_and_socket_list("x"), Err(RaplError::InvalidCpuList));
}

#[test]
fn unique_sockets_are_accepted() {
    let cpus = [CpuId { cpu: 0, socket: 0 }, CpuId { cpu: 64, socket: 1 }];
    assert_eq!(check_socket_cpus(&cpus), Ok(()));
    assert_eq!(check_socket_cpus(&[]), Ok(()));
}

#[test]
fn repeated_socket_is_a_conflict() {
    let cpus = [
        CpuId { cpu: 0, socket: 0 },
        CpuId { cpu: 1, socket: 1 },
        CpuId { cpu: 2, socket: 1 },
        CpuId { cpu: 3, socket: 0 },
    ];
    assert_eq!(check_socket_cpus(&cpus), Err(RaplError::SocketConflict { socket: 1 }));
}

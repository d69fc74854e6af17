use netdd::cli::{parse_args, CliError, Input, Output};

fn args(list: &[&[u8]]) -> Vec<Vec<u8>> {
    list.iter().map(|a| a.to_vec()).collect()
}

#[test]
fn accepts_file_to_file() {
    let r = parse_args(&args(&[b"if=/tmp/a.bin", b"of=/tmp/b.bin"]));
    match r {
        Ok((Input::Path(i), Output::Path(o))) => {
            assert_eq!(i, b"/tmp/a.bin".to_vec());
            assert_eq!(o, b"/tmp/b.bin".to_vec());
        }
        other => panic!("expected two file endpoints, got {:?}", other),
    }
}

#[test]
fn accepts_network_sides_in_any_order() {
    let r = parse_args(&args(&[b"of=netdd://0.0.0.0:4545", b"if=/tmp/a.bin"]));
    match r {
        Ok((Input::Path(_), Output::SendingServer(sa))) => assert_eq!(sa.port, 4545),
        other => panic!("expected a server output, got {:?}", other),
    }
    let r = parse_args(&args(&[b"if=netdd://127.0.0.1:4545", b"of=/tmp/out1.bin"]));
    match r {
        Ok((Input::ReceivingClient(sa), Output::Path(_))) => assert_eq!(sa.port, 4545),
        other => panic!("expected a client input, got {:?}", other),
    }
}

#[test]
fn later_argument_replaces_earlier() {
    let r = parse_args(&args(&[b"if=/a", b"if=/b", b"of=/c"]));
    match r {
        Ok((Input::Path(i), _)) => assert_eq!(i, b"/b".to_vec()),
        other => panic!("expected a file input, got {:?}", other),
    }
}

#[test]
fn rejects_unrecognized_argument() {
    assert!(matches!(
        parse_args(&args(&[b"if=/a", b"of=/b", b"--verbose"])),
        Err(CliError::Usage)
    ));
}

#[test]
fn rejects_missing_sides() {
    assert!(matches!(parse_args(&args(&[])), Err(CliError::Usage)));
    assert!(matches!(parse_args(&args(&[b"if=/a"])), Err(CliError::Usage)));
    assert!(matches!(parse_args(&args(&[b"of=/b"])), Err(CliError::Usage)));
}

#[test]
fn rejects_malformed_network_specifier() {
    assert!(matches!(
        parse_args(&args(&[b"if=netdd://not-an-address", b"of=/b"])),
        Err(CliError::Parse)
    ));
    assert!(matches!(
        parse_args(&args(&[b"if=/a", b"of=netdd://1.2.3.4:99999"])),
        Err(CliError::Parse)
    ));
}

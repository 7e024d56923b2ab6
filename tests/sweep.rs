use cache_lifespan::sim_record::{Access, Command as SimCommand};
use cache_lifespan::sweep::{budgets_for, count_digits, linspace, logspace, sweep, SweepError};
use cache_lifespan::twitter::{
    get_file_extension, parse_command, parse_key, parse_ttl, AccessType, ConvertRow, Format,
    RowError, TwitterRow,
};
use cache_lifespan::trace::Command;

#[test]
fn log_spaced_budgets() {
    assert_eq!(logspace(100, 3), vec![25, 50, 100]);
    assert_eq!(logspace(3, 4), vec![1, 3]);
    assert_eq!(logspace(1 << 20, 0), Vec::<u64>::new());
    assert_eq!(logspace(u64::MAX, 70), {
        let mut v = Vec::new();
        for shift in (0..64).rev() {
            v.push(u64::MAX >> shift);
        }
        v
    });
}

#[test]
fn linear_budgets() {
    assert_eq!(linspace(100, 4), vec![25, 50, 75, 100]);
    assert_eq!(linspace(10, 3), vec![3, 6, 9]);
    assert_eq!(linspace(3, 4), Vec::<u64>::new());
}

#[test]
fn budgets_from_size_text() {
    assert_eq!(budgets_for("10 KB", 2), Ok((vec![5000, 10000], 0)));
    assert_eq!(budgets_for("1 KiB", 1), Ok((vec![1024], 0)));
    assert_eq!(budgets_for("3", 4), Ok((vec![1, 3], 2)));
    assert_eq!(budgets_for("^_^", 2), Err(SweepError::InvalidSize));
}

#[test]
fn size_text_with_too_many_digits_is_refused() {
    assert_eq!(count_digits("1.5 KiB 2"), 3);
    assert_eq!(budgets_for("184467440737095516155", 1), Err(SweepError::InvalidSize));
    assert_eq!(budgets_for("18446744073709551615", 1), Ok((vec![u64::MAX], 0)));
}

#[test]
fn sweep_replays_each_budget_afresh() {
    let get = |timestamp: u64, key: u64, size: u32| Access {
        timestamp,
        command: SimCommand::Get,
        key,
        size,
        ttl: None,
    };
    let trace = vec![get(0, 1, 60), get(10, 2, 60), get(20, 3, 60)];
    let out = sweep(&trace, &vec![50, 100, 200, 100]);
    // Objects of 60 bytes never fit a budget of 50.
    assert_eq!(out, vec![vec![], vec![20], vec![], vec![20]]);
}

fn row(command: &str, key: &str, ttl: u32) -> TwitterRow {
    TwitterRow {
        timestamp: 5000,
        key: key.as_bytes().to_vec(),
        ksize: 12,
        vsize: 300,
        cid: 4,
        command: command.as_bytes().to_vec(),
        ttl,
        row_size: 41,
    }
}

#[test]
fn twitter_commands() {
    let names = [
        ("get", Command::Get),
        ("set", Command::Put),
        ("add", Command::Add),
        ("replace", Command::Replace),
        ("append", Command::Append),
        ("prepend", Command::Prepend),
        ("incr", Command::Incr),
        ("decr", Command::Decr),
        ("gets", Command::Gets),
        ("cas", Command::Cas),
        ("delete", Command::Delete),
    ];
    for (name, command) in names {
        assert_eq!(parse_command(&row(name, "k", 0)), Some(command));
    }
    assert_eq!(parse_command(&row("GET", "k", 0)), None);
    assert_eq!(parse_command(&row("touch", "k", 0)), None);
}

#[test]
fn twitter_key_is_hashed() {
    let r = row("get", "user:1234,a", 0);
    let expected = fasthash::murmur3::hash128("user:1234,a") as u64;
    assert_eq!(parse_key(&r), expected);
    assert_ne!(parse_key(&r), parse_key(&row("get", "user:1235,a", 0)));
}

#[test]
fn twitter_ttl() {
    assert_eq!(parse_ttl(&row("set", "k", 0)), None);
    assert_eq!(parse_ttl(&row("set", "k", 30)), Some(30));
}

#[test]
fn twitter_row_to_access() {
    let r = row("set", "abc", 30);
    assert_eq!(r.size(), 41);
    match r.to_access() {
        AccessType::Supported(a) => {
            assert_eq!(a.command, Command::Put);
            assert_eq!(a.timestamp, 5000);
            assert_eq!(a.key, fasthash::murmur3::hash128("abc") as u64);
            assert_eq!((a.ksize, a.vsize, a.cid, a.ttl), (12, 300, 4, Some(30)));
        }
        AccessType::Unsupported => panic!("set is supported"),
    }
    assert!(matches!(row("touch", "abc", 0).to_access(), AccessType::Unsupported));
}

#[test]
fn csv_extension() {
    assert_eq!(get_file_extension(&Format::Twitter), "csv");
}

#[test]
fn twitter_row_from_line() {
    let r = TwitterRow::from_line("10,key:a,b,5,300,7,get,30").unwrap();
    assert_eq!(r.timestamp, 10_000);
    assert_eq!(r.key, b"key:a,b".to_vec());
    assert_eq!((r.ksize, r.vsize, r.cid, r.ttl), (5, 300, 7, 0x1E));
    assert_eq!(r.command, b"get".to_vec());
    assert_eq!(r.size(), 26);

    let r = TwitterRow::from_line("0,k,+1,2,3,set,0").unwrap();
    assert_eq!((r.timestamp, r.ksize, r.vsize, r.cid, r.ttl), (0, 1, 2, 3, 0));
    assert_eq!(r.key, b"k".to_vec());

    let r = TwitterRow::from_line("4294967,5,300,7,get,30").unwrap();
    assert_eq!(r.timestamp, 4_294_967_000);
    assert!(r.key.is_empty());
}

#[test]
fn twitter_row_errors() {
    assert_eq!(TwitterRow::from_line("1,2,3,4").err(), Some(RowError::TooFewFields));
    assert_eq!(TwitterRow::from_line("x,k,1,2,3,get,0").err(), Some(RowError::InvalidTimestamp));
    assert_eq!(
        TwitterRow::from_line("4294968,k,1,2,3,get,0").err(),
        Some(RowError::InvalidTimestamp)
    );
    assert_eq!(TwitterRow::from_line("1,k,256,2,3,get,0").err(), Some(RowError::InvalidSize));
    assert_eq!(TwitterRow::from_line("1,k,1,-2,3,get,0").err(), Some(RowError::InvalidSize));
    assert_eq!(TwitterRow::from_line("1,k,1,2,,get,0").err(), Some(RowError::InvalidSize));
    assert_eq!(TwitterRow::from_line("1,k,1,2,3,get,ttl").err(), Some(RowError::InvalidTtl));
    assert_eq!(TwitterRow::from_line("1,k,1,2,3,get,+").err(), Some(RowError::InvalidTtl));
    assert_eq!(
        TwitterRow::from_line("1,k,1,2,3,get,4294967296").err(),
        Some(RowError::InvalidTtl)
    );
}

#[test]
fn twitter_line_to_access() {
    let r = TwitterRow::from_line("3,abc,3,100,1,set,60").unwrap();
    match r.to_access() {
        AccessType::Supported(a) => {
            assert_eq!(a.timestamp, 3000);
            assert_eq!(a.command, Command::Put);
            assert_eq!(a.key, fasthash::murmur3::hash128("abc") as u64);
            assert_eq!(a.ttl, Some(60));
        }
        AccessType::Unsupported => panic!("set is supported"),
    }
}

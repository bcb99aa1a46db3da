use monitaur::dns::{group_hostnames, host_entries, nameserver_candidates};

#[test]
fn nameservers_are_read_from_trimmed_lines() {
    let conf = "# comment\nnameserver 1.1.1.1\n  nameserver 8.8.8.8  \nsearch lan\nnameserver\nnameservers 9.9.9.9\n";
    assert_eq!(nameserver_candidates(conf), vec!["1.1.1.1".to_string(), "8.8.8.8".to_string()]);
    assert_eq!(nameserver_candidates(""), Vec::<String>::new());
}

#[test]
fn host_entries_skip_comments_blank_and_nameless_lines() {
    let hosts = "127.0.0.1 localhost\n# 10.0.0.1 hidden\n\n   \n10.0.0.2\n::1 localhost ip6-localhost\n";
    assert_eq!(
        host_entries(hosts),
        vec![
            vec!["127.0.0.1".to_string(), "localhost".to_string()],
            vec!["::1".to_string(), "localhost".to_string(), "ip6-localhost".to_string()],
        ]
    );
}

#[test]
fn hostnames_are_grouped_with_their_lines() {
    let rows = vec![
        vec!["localhost".to_string()],
        vec!["localhost".to_string(), "ip6-localhost".to_string()],
        vec!["db".to_string(), "db".to_string()],
    ];
    assert_eq!(
        group_hostnames(&rows),
        vec![
            ("localhost".to_string(), vec![0, 1]),
            ("ip6-localhost".to_string(), vec![1]),
            ("db".to_string(), vec![2, 2]),
        ]
    );
}

use loadsmith_lab::docker::{
    container_request, env_assignment, env_assignments, env_pairs, port_key, split_env,
    split_image_ref, ContainerConfig, LineBuffer,
};

fn config() -> ContainerConfig {
    ContainerConfig {
        image: "postgres:15".to_string(),
        hostname: Some("pg".to_string()),
        network: Some("net".to_string()),
        env: vec![("A".to_string(), "1".to_string()), ("B".to_string(), "x=y".to_string())],
        binds: vec!["/d:/data".to_string()],
        publish_ports: vec![(15432, 5432)],
        cmd: vec![],
        docker_args: vec!["--privileged".to_string()],
    }
}

#[test]
fn environment_entries() {
    assert_eq!(env_assignment("KEY", "v"), "KEY=v");
    assert_eq!(
        env_assignments(&vec![("A".to_string(), "1".to_string()), ("B".to_string(), String::new())]),
        vec!["A=1".to_string(), "B=".to_string()]
    );
    assert_eq!(split_env("A=1=2"), ("A".to_string(), "1=2".to_string()));
    assert_eq!(split_env("FLAG"), ("FLAG".to_string(), String::new()));
    assert_eq!(split_env("=v"), (String::new(), "v".to_string()));
    assert_eq!(env_pairs(&vec!["X=1".to_string(), "Y".to_string()]).len(), 2);
}

#[test]
fn environment_roundtrip() {
    for (k, v) in [("KEY", "a=b"), ("PATH", ""), ("P", "=")] {
        assert_eq!(split_env(&env_assignment(k, v)), (k.to_string(), v.to_string()));
    }
}

#[test]
fn image_references() {
    assert_eq!(split_image_ref("postgres:15"), ("postgres".to_string(), "15".to_string()));
    assert_eq!(split_image_ref("postgres"), ("postgres".to_string(), "latest".to_string()));
    assert_eq!(
        split_image_ref("loadsmith-lab/images/pg:local"),
        ("loadsmith-lab/images/pg".to_string(), "local".to_string())
    );
    assert_eq!(split_image_ref("localhost:5000/img"), ("localhost".to_string(), "5000/img".to_string()));
}

#[test]
fn port_keys() {
    assert_eq!(port_key(5432), "5432/tcp");
    assert_eq!(port_key(0), "0/tcp");
}

#[test]
fn container_requests() {
    let r = container_request(&config());
    assert_eq!(r.image, "postgres:15");
    assert_eq!(r.name.as_deref(), Some("pg"));
    assert_eq!(r.hostname.as_deref(), Some("pg"));
    assert_eq!(r.env, Some(vec!["A=1".to_string(), "B=x=y".to_string()]));
    assert_eq!(r.cmd, None);
    assert_eq!(r.binds, Some(vec!["/d:/data".to_string()]));
    assert_eq!(r.ports, Some(vec![("5432/tcp".to_string(), "15432".to_string())]));
    assert_eq!(r.network.as_deref(), Some("net"));
    assert_eq!(r.aliases, Some(vec!["pg".to_string()]));

    let bare = ContainerConfig {
        image: "img".to_string(),
        hostname: None,
        network: None,
        env: vec![],
        binds: vec![],
        publish_ports: vec![],
        cmd: vec!["run".to_string()],
        docker_args: vec![],
    };
    let r = container_request(&bare);
    assert_eq!(r.name, None);
    assert_eq!(r.env, None);
    assert_eq!(r.binds, None);
    assert_eq!(r.ports, None);
    assert_eq!(r.aliases, None);
    assert_eq!(r.cmd, Some(vec!["run".to_string()]));
}

fn text(v: &[char]) -> String {
    v.iter().collect()
}

#[test]
fn line_buffer_splits_chunks_into_lines() {
    let mut b = LineBuffer::new();
    let l1 = b.push("ab\ncd");
    assert_eq!(l1.iter().map(|l| text(l)).collect::<Vec<_>>(), vec!["ab".to_string()]);
    let l2 = b.push("e\n\nf");
    assert_eq!(l2.iter().map(|l| text(l)).collect::<Vec<_>>(), vec!["cde".to_string(), String::new()]);
    assert_eq!(b.accumulated(), "ab\ncde\n\nf");
    assert_eq!(b.finish().map(|l| text(&l)), Some("f".to_string()));
    let l3 = b.push("g\n");
    assert_eq!(l3.iter().map(|l| text(l)).collect::<Vec<_>>(), vec!["fg".to_string()]);
    assert_eq!(b.finish(), None);
}

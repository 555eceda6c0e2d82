use kiki::paths::{
    config_path, default_mount_root, default_storage_dir, is_explicit_socket, kiki_home, log_path,
    mount_root, pid_path, runtime_dir, socket_path, state_dir, Env,
};

fn home() -> Env {
    Env {
        kiki_home: None,
        xdg_data_home: None,
        home: Some("/home/me".to_owned()),
        kiki_mount: None,
        kiki_socket_path: None,
    }
}

#[test]
fn defaults_lie_under_the_home_directory() {
    let env = home();
    assert_eq!(kiki_home(&env), "/home/me/.local/share/kiki");
    assert_eq!(state_dir(&env), "/home/me/.local/share/kiki");
    assert_eq!(mount_root(&env), "/home/me/kiki");
    assert_eq!(default_mount_root(&env), "/home/me/kiki");
    assert_eq!(socket_path(&env), "/home/me/.local/share/kiki/daemon.sock");
    assert_eq!(pid_path(&env), "/home/me/.local/share/kiki/daemon.pid");
    assert_eq!(log_path(&env), "/home/me/.local/share/kiki/daemon.log");
    assert_eq!(runtime_dir(&env), state_dir(&env));
    assert_eq!(default_storage_dir(&env), "/home/me/.local/share/kiki/store");
    assert_eq!(config_path(&env), "/home/me/.local/share/kiki/config.toml");
    assert!(!is_explicit_socket(&env));
}

#[test]
fn variables_override_the_defaults() {
    let mut env = home();
    env.xdg_data_home = Some("/data".to_owned());
    assert_eq!(kiki_home(&env), "/data/kiki");
    env.kiki_home = Some("/state".to_owned());
    assert_eq!(kiki_home(&env), "/state");
    env.kiki_mount = Some("/mnt/kiki".to_owned());
    assert_eq!(mount_root(&env), "/mnt/kiki");
    assert_eq!(config_path(&env), "/state/config.toml");
}

#[test]
fn an_explicit_socket_moves_the_runtime_files() {
    let mut env = home();
    env.kiki_socket_path = Some("/run/kiki/control.sock".to_owned());
    assert!(is_explicit_socket(&env));
    assert_eq!(socket_path(&env), "/run/kiki/control.sock");
    assert_eq!(runtime_dir(&env), "/run/kiki");
    assert_eq!(pid_path(&env), "/run/kiki/daemon.pid");
    assert_eq!(log_path(&env), "/run/kiki/daemon.log");
    assert_eq!(default_storage_dir(&env), "/home/me/.local/share/kiki/store");
    env.kiki_socket_path = Some("/".to_owned());
    assert_eq!(runtime_dir(&env), "/", "the root has no parent");
}

#[test]
fn runtime_files_lie_beside_the_socket() {
    let mut env = home();
    env.kiki_socket_path = Some("/run/user/7/kiki.sock".to_owned());
    assert_eq!(runtime_dir(&env), "/run/user/7");
    assert_eq!(pid_path(&env), "/run/user/7/daemon.pid");
    assert_eq!(log_path(&env), "/run/user/7/daemon.log");
    env.kiki_socket_path = Some("kiki.sock".to_owned());
    assert_eq!(runtime_dir(&env), "");
}

use zed_locale::remote_url::remote_url_text;
use zed_locale::RemoteUrl;

#[test]
fn test_parsing_valid_remote_urls() {
    let valid_urls = vec![
        (
            "https://github.com/octocat/zed.git",
            "https",
            "github.com",
            "/octocat/zed.git",
        ),
        (
            "https://jlannister@github.com/octocat/zed.git",
            "https",
            "github.com",
            "/octocat/zed.git",
        ),
        (
            "git@github.com:octocat/zed.git",
            "ssh",
            "github.com",
            "/octocat/zed.git",
        ),
        (
            "org-000000@github.com:octocat/zed.git",
            "ssh",
            "github.com",
            "/octocat/zed.git",
        ),
        (
            "first.last@gitlab.example.com:group/repo.git",
            "ssh",
            "gitlab.example.com",
            "/group/repo.git",
        ),
        (
            "ssh://git@github.com/octocat/zed.git",
            "ssh",
            "github.com",
            "/octocat/zed.git",
        ),
        (
            "file:///path/to/local/zed",
            "file",
            "",
            "/path/to/local/zed",
        ),
    ];

    for (input, expected_scheme, expected_host, expected_path) in valid_urls {
        let parsed = input.parse::<RemoteUrl>().expect("解析 URL 失败");
        let url = parsed.0;
        assert_eq!(url.scheme(), expected_scheme, "意外的方案 {input:?}",);
        assert_eq!(
            url.host_str().unwrap_or(""),
            expected_host,
            "意外的主机 {input:?}",
        );
        assert_eq!(url.path(), expected_path, "意外的路径 {input:?}");
    }
}

#[test]
fn test_parsing_invalid_remote_urls() {
    let invalid_urls = vec!["not_a_url", "http://"];

    for url in invalid_urls {
        assert!(
            url.parse::<RemoteUrl>().is_err(),
            "expected \"{url}\" to not parse as a Git remote URL",
        );
    }
}

#[test]
fn scp_remotes_become_ssh_urls() {
    assert_eq!(
        remote_url_text("git@github.com:octocat/zed.git", true),
        "ssh://git@github.com/octocat/zed.git"
    );
    // Only the first `:` is replaced.
    assert_eq!(remote_url_text("a@b:c:d", true), "ssh://a@b/c:d");
    assert_eq!(remote_url_text("a@b", true), "ssh://a@b");
    assert_eq!(
        remote_url_text("https://github.com/octocat/zed.git", false),
        "https://github.com/octocat/zed.git"
    );
}

#[test]
fn remote_url_derefs_to_the_url() {
    let remote: RemoteUrl = "git@example.com:team/project.git".parse().unwrap();
    assert_eq!(remote.as_str(), "ssh://git@example.com/team/project.git");
    assert_eq!(remote.clone(), remote);
    // A user name that holds `/` is not an SCP-like prefix.
    assert!("a/b@host:path".parse::<RemoteUrl>().is_err());
    // An `@` first is no user name either.
    assert!("@host:path".parse::<RemoteUrl>().is_err());
}

#[test]
fn remote_url_carries_the_parts_of_its_url() {
    let remote: RemoteUrl = "git@github.com:octocat/zed.git".parse().unwrap();
    assert_eq!(remote.1.text, "ssh://git@github.com/octocat/zed.git");
    assert_eq!(remote.1.scheme, "ssh");
    assert_eq!(remote.1.host.as_deref(), Some("github.com"));
    assert_eq!(remote.1.path, "/octocat/zed.git");
    assert_eq!(remote.1.text, remote.0.as_str());

    let local: RemoteUrl = "file:///path/to/local/zed".parse().unwrap();
    assert_eq!(local.1.scheme, "file");
    assert_eq!(local.1.host, None);
    assert_eq!(local.1.path, "/path/to/local/zed");
}

#[test]
fn remote_url_serialization_is_its_parts_text() {
    for input in ["first.last@gitlab.example.com:group/repo.git", "https://jlannister@github.com/octocat/zed.git"] {
        let remote: RemoteUrl = input.parse().unwrap();
        assert_eq!(remote.0.as_str(), remote.1.text);
    }
}

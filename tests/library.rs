use git_remote_s3::catalog::{list_remote_refs, Catalog, CatalogError};
use git_remote_s3::config::{
    config, recipient_from_email, recipients_from_setting, recipients_setting, trim_text, ConfigError,
};
use git_remote_s3::protocol::{
    capabilities_response, fetch_response, fetch_target, list_response, parse_command, push_response,
    unknown_response, Command,
};
use git_remote_s3::push::{can_push, parse_push_request, required_ancestor, stale_objects, PushRequestError};
use git_remote_s3::refs::{object_key, parse_object_key, sorted_remote_refs, GitRef, RemoteRef};
use git_remote_s3::remote::{parse_remote_url, UrlError};
use git_remote_s3::store::{Key, ListedObject};
use git_remote_s3::words::split_words;

fn root() -> Key {
    Key { bucket: "bucket".to_string(), key: "test".to_string() }
}

fn listed(key: &str, time: &str) -> ListedObject {
    ListedObject { key: Some(key.to_string()), last_modified: Some(time.to_string()) }
}

fn stored(name: &str, sha: &str, time: &str) -> RemoteRef {
    RemoteRef {
        object: Key { bucket: "bucket".to_string(), key: format!("test/{}/{}.bundle", name, sha) },
        updated: time.to_string(),
        reference: GitRef { name: name.to_string(), sha: sha.to_string() },
    }
}

fn catalog_of(objects: Vec<ListedObject>) -> Catalog {
    list_remote_refs(&root(), objects).unwrap()
}

#[test]
fn bundle_path_layout() {
    let r = GitRef { name: "refs/heads/master".to_string(), sha: "abc123".to_string() };
    assert_eq!(r.bundle_path("test".to_string()), "test/refs/heads/master/abc123.bundle");
}

#[test]
fn same_ref_same_object_key() {
    let a = GitRef { name: "refs/heads/master".to_string(), sha: "c1".to_string() };
    let b = GitRef { name: "refs/heads/master".to_string(), sha: "c1".to_string() };
    let c = GitRef { name: "refs/heads/master".to_string(), sha: "c2".to_string() };
    let ka = object_key(&root(), &a);
    let kb = object_key(&root(), &b);
    let kc = object_key(&root(), &c);
    assert_eq!(ka.bucket, "bucket");
    assert_eq!(ka.key, kb.key);
    assert_ne!(ka.key, kc.key);
}

#[test]
fn object_key_parses() {
    let g = parse_object_key(&root(), "test/refs/heads/master/0123456789abcdef.bundle").unwrap();
    assert_eq!(g.name, "refs/heads/master");
    assert_eq!(g.sha, "0123456789abcdef");
}

#[test]
fn object_key_shape_errors() {
    assert!(parse_object_key(&root(), "test/nodot").is_none());
    assert!(parse_object_key(&root(), "testbundle.x").is_none());
    assert!(parse_object_key(&root(), "test/a.b/c").is_none());
    assert!(parse_object_key(&root(), "test/sha.bundle").is_none());
}

#[test]
fn history_is_newest_first() {
    let refs = vec![
        stored("m", "a", "2020-01-02T00:00:00.000Z"),
        stored("m", "b", "2020-01-03T00:00:00.000Z"),
        stored("m", "c", "2020-01-01T00:00:00.000Z"),
    ];
    let h = sorted_remote_refs(refs);
    let shas: Vec<&str> = h.by_update_time.iter().map(|r| r.reference.sha.as_str()).collect();
    assert_eq!(shas, vec!["b", "a", "c"]);
    assert_eq!(h.latest_ref().reference.sha, "b");
}

#[test]
fn latest_ref_independent_of_listing_order() {
    let times = ["2021-05-01T10:00:00.000Z", "2021-05-01T09:00:00.000Z", "2021-05-02T00:00:00.000Z"];
    let orders = [[0, 1, 2], [2, 1, 0], [1, 2, 0], [1, 0, 2]];
    for order in orders.iter() {
        let refs: Vec<RemoteRef> = order.iter().map(|&i| stored("m", &format!("s{}", i), times[i])).collect();
        assert_eq!(sorted_remote_refs(refs).latest_ref().reference.sha, "s2");
    }
}

#[test]
fn empty_listing_gives_empty_catalog() {
    let c = catalog_of(vec![]);
    assert!(c.entries.is_empty());
    let lines = list_response(&c);
    assert_eq!(lines, vec![""]);
}

#[test]
fn catalog_groups_by_name() {
    let c = catalog_of(vec![
        listed("test/refs/heads/master/aaa.bundle", "2020-01-01T00:00:00.000Z"),
        listed("test/refs/heads/dev/ddd.bundle", "2020-01-01T00:00:00.000Z"),
        ListedObject { key: None, last_modified: None },
        listed("test/refs/heads/master/bbb.bundle", "2020-01-02T00:00:00.000Z"),
    ]);
    assert_eq!(c.entries.len(), 2);
    let master = c.get("refs/heads/master").unwrap();
    assert_eq!(master.by_update_time.len(), 2);
    assert_eq!(master.latest_ref().reference.sha, "bbb");
    assert_eq!(master.latest_ref().object.key, "test/refs/heads/master/bbb.bundle");
    assert_eq!(master.latest_ref().object.bucket, "bucket");
    let dev = c.get("refs/heads/dev").unwrap();
    assert_eq!(dev.latest_ref().reference.sha, "ddd");
    assert!(c.get("refs/heads/other").is_none());
}

#[test]
fn catalog_malformed_key() {
    let r = list_remote_refs(&root(), vec![
        listed("test/refs/heads/master/aaa.bundle", "t"),
        listed("test/garbage", "t"),
    ]);
    match r {
        Err(CatalogError::MalformedKey(k)) => assert_eq!(k, "test/garbage"),
        other => panic!("unexpected {:?}", other),
    }
}

#[test]
fn catalog_missing_timestamp() {
    let r = list_remote_refs(&root(), vec![ListedObject {
        key: Some("test/refs/heads/master/aaa.bundle".to_string()),
        last_modified: None,
    }]);
    match r {
        Err(CatalogError::MissingTimestamp(k)) => assert_eq!(k, "test/refs/heads/master/aaa.bundle"),
        other => panic!("unexpected {:?}", other),
    }
}

#[test]
fn list_advertises_refs_and_head() {
    let c = catalog_of(vec![
        listed("test/refs/heads/master/0123456789.bundle", "2020-01-01T00:00:00.000Z"),
        listed("test/refs/heads/master/abcdefabcd.bundle", "2020-01-02T00:00:00.000Z"),
    ]);
    let lines = list_response(&c);
    assert_eq!(
        lines,
        vec![
            "abcdefabcd refs/heads/master",
            "0123456789 refs/heads/master__0123456",
            "@refs/heads/master HEAD",
            "",
        ]
    );
}

#[test]
fn list_without_master_has_no_head() {
    let c = catalog_of(vec![listed("test/refs/heads/dev/abc.bundle", "t")]);
    assert_eq!(list_response(&c), vec!["abc refs/heads/dev", ""]);
}

#[test]
fn words_split_on_ascii_whitespace() {
    assert_eq!(split_words("  a\tbb  c\r\n"), vec!["a", "bb", "c"]);
    assert!(split_words(" \n").is_empty());
    assert!(split_words("").is_empty());
}

#[test]
fn commands_parse() {
    assert!(matches!(parse_command("capabilities\n"), Command::Capabilities));
    assert!(matches!(parse_command("list\n"), Command::List));
    assert!(matches!(parse_command("list for-push\n"), Command::List));
    assert!(matches!(parse_command("list for-fetch\n"), Command::Unknown));
    assert!(matches!(parse_command("\n"), Command::End));
    assert!(matches!(parse_command(""), Command::End));
    assert!(matches!(parse_command("frobnicate\n"), Command::Unknown));
    assert!(matches!(parse_command("push a b\n"), Command::Unknown));
    assert!(matches!(parse_command("capabilities now\n"), Command::Unknown));
    match parse_command("push +refs/heads/x:refs/heads/x\n") {
        Command::Push { refspec } => assert_eq!(refspec, "+refs/heads/x:refs/heads/x"),
        other => panic!("unexpected {:?}", other),
    }
    match parse_command("fetch abc123 refs/heads/master extra\n") {
        Command::Fetch { sha, name } => {
            assert_eq!(sha, "abc123");
            assert_eq!(name, "refs/heads/master");
        }
        other => panic!("unexpected {:?}", other),
    }
}

#[test]
fn fixed_responses() {
    assert_eq!(capabilities_response(), vec!["*push", "*fetch", ""]);
    assert_eq!(unknown_response(), vec!["unknown command", ""]);
    assert_eq!(push_response("refs/heads/master", true), vec!["ok refs/heads/master", ""]);
    assert_eq!(
        push_response("refs/heads/master", false),
        vec![
            "error refs/heads/master remote changed: force push to add new ref, the old ref will be kept until its merged)",
            "",
        ]
    );
}

#[test]
fn fetch_skips_head() {
    assert!(fetch_target("abc", "HEAD").is_none());
    let g = fetch_target("abc", "refs/heads/master").unwrap();
    assert_eq!(g.name, "refs/heads/master");
    assert_eq!(g.sha, "abc");
}

#[test]
fn push_requests() {
    let p = parse_push_request("refs/heads/master:refs/heads/master").unwrap();
    assert!(!p.force);
    assert_eq!(p.name, "refs/heads/master");
    let p = parse_push_request("+refs/heads/master:refs/heads/master").unwrap();
    assert!(p.force);
    assert_eq!(p.name, "refs/heads/master");
    assert_eq!(parse_push_request("refs/heads/a:refs/heads/b").unwrap_err(), PushRequestError::RenameUnsupported);
    assert_eq!(parse_push_request("refs/heads/a").unwrap_err(), PushRequestError::MissingDestination);
    let p = parse_push_request("x:x:y").unwrap();
    assert_eq!(p.name, "x");
}

#[test]
fn fast_forward_gate() {
    let c = catalog_of(vec![listed("test/refs/heads/master/aaa.bundle", "t")]);
    let h = c.get("refs/heads/master");
    assert_eq!(required_ancestor(false, h).unwrap(), "aaa");
    assert!(required_ancestor(true, h).is_none());
    assert!(required_ancestor(false, None).is_none());
    assert!(can_push(false, h, true));
    assert!(!can_push(false, h, false));
    assert!(can_push(true, h, false));
    assert!(can_push(false, None, false));
}

#[test]
fn stale_objects_are_the_ancestors() {
    let c = catalog_of(vec![
        listed("test/refs/heads/master/a.bundle", "1"),
        listed("test/refs/heads/master/b.bundle", "2"),
        listed("test/refs/heads/master/c.bundle", "3"),
    ]);
    let h = c.get("refs/heads/master").unwrap();
    // history is c, b, a; b and a are ancestors of the pushed commit
    let pushed = Key { bucket: "bucket".to_string(), key: "test/refs/heads/master/d.bundle".to_string() };
    let keys = stale_objects(h, &vec![false, true, true], &pushed);
    let names: Vec<&str> = keys.iter().map(|k| k.key.as_str()).collect();
    assert_eq!(names, vec!["test/refs/heads/master/b.bundle", "test/refs/heads/master/a.bundle"]);
    assert!(keys.iter().all(|k| k.bucket == "bucket"));
    assert!(stale_objects(h, &vec![false, false, false], &pushed).is_empty());
}

#[test]
fn push_scenario_over_catalog_states() {
    let m = "refs/heads/master";
    // a fresh remote: the first push needs no ancestry check
    let empty = catalog_of(vec![]);
    assert!(required_ancestor(false, empty.get(m)).is_none());
    assert!(can_push(false, empty.get(m), false));
    // c1 stored; c2 descends from c1: allowed, c1 is collected
    let one = catalog_of(vec![listed("test/refs/heads/master/c1.bundle", "1")]);
    assert_eq!(one.get(m).unwrap().latest_ref().reference.sha, "c1");
    assert_eq!(required_ancestor(false, one.get(m)).unwrap(), "c1");
    assert!(can_push(false, one.get(m), true));
    let c2_key = Key { bucket: "bucket".to_string(), key: "test/refs/heads/master/c2.bundle".to_string() };
    let gone = stale_objects(one.get(m).unwrap(), &vec![true], &c2_key);
    assert_eq!(gone[0].key, "test/refs/heads/master/c1.bundle");
    // c2 stored; a divergent c2x is refused without force, accepted with it,
    // and c2 is kept because it is not an ancestor of c2x
    let two = catalog_of(vec![listed("test/refs/heads/master/c2.bundle", "2")]);
    assert!(!can_push(false, two.get(m), false));
    assert_eq!(
        push_response(m, false)[0],
        "error refs/heads/master remote changed: force push to add new ref, the old ref will be kept until its merged)"
    );
    assert!(can_push(true, two.get(m), false));
    let c2x_key = Key { bucket: "bucket".to_string(), key: "test/refs/heads/master/c2x.bundle".to_string() };
    assert!(stale_objects(two.get(m).unwrap(), &vec![false], &c2x_key).is_empty());
    let both = catalog_of(vec![
        listed("test/refs/heads/master/c2.bundle", "2"),
        listed("test/refs/heads/master/c2x.bundle", "3"),
    ]);
    assert_eq!(both.get(m).unwrap().by_update_time.len(), 2);
    assert_eq!(both.get(m).unwrap().latest_ref().reference.sha, "c2x");
}

#[test]
fn config_values() {
    assert_eq!(config("x\n".to_string()).unwrap(), "x");
    assert_eq!(config(" a b ".to_string()).unwrap(), "a b");
    assert_eq!(config("".to_string()).unwrap_err(), ConfigError::Unset);
    assert_eq!(config(" \t\n".to_string()).unwrap_err(), ConfigError::Unset);
    assert_eq!(recipients_setting("origin"), "remote.origin.gpgRecipients");
}

#[test]
fn trimming_unicode_white_space() {
    assert_eq!(trim_text("\u{3000} abc\u{a0}\r\n"), "abc");
    assert_eq!(trim_text("a \u{2003} b"), "a \u{2003} b");
    assert_eq!(trim_text("   "), "");
    assert_eq!(trim_text("0123abcd\n"), "0123abcd");
}

#[test]
fn recipients_resolution() {
    assert_eq!(recipients_from_setting("a@x b@y\n".to_string()).unwrap(), vec!["a@x", "b@y"]);
    assert!(recipients_from_setting("".to_string()).is_none());
    assert!(recipients_from_setting("  \n".to_string()).is_none());
    assert_eq!(recipient_from_email("me@z\n".to_string()).unwrap(), vec!["me@z"]);
    assert_eq!(recipient_from_email("".to_string()).unwrap_err(), ConfigError::Unset);
}

#[test]
fn repush_keeps_the_uploaded_object() {
    let c = catalog_of(vec![
        listed("test/refs/heads/master/old.bundle", "1"),
        listed("test/refs/heads/master/cur.bundle", "2"),
    ]);
    let h = c.get("refs/heads/master").unwrap();
    let again = object_key(&root(), &GitRef { name: "refs/heads/master".to_string(), sha: "cur".to_string() });
    // both stored commits are ancestors of (or equal to) the pushed one
    let keys = stale_objects(h, &vec![true, true], &again);
    let names: Vec<&str> = keys.iter().map(|k| k.key.as_str()).collect();
    assert_eq!(names, vec!["test/refs/heads/master/old.bundle"]);
}

#[test]
fn equal_timestamps_ordered_by_key() {
    let t = "2020-01-01T00:00:00.000Z";
    let forward = sorted_remote_refs(vec![stored("m", "a", t), stored("m", "c", t), stored("m", "b", t)]);
    let backward = sorted_remote_refs(vec![stored("m", "b", t), stored("m", "c", t), stored("m", "a", t)]);
    let f: Vec<&str> = forward.by_update_time.iter().map(|r| r.reference.sha.as_str()).collect();
    let b: Vec<&str> = backward.by_update_time.iter().map(|r| r.reference.sha.as_str()).collect();
    assert_eq!(f, vec!["c", "b", "a"]);
    assert_eq!(f, b);
}

#[test]
fn fetch_reply_is_blank_line() {
    assert_eq!(fetch_response(), vec![""]);
}

#[test]
fn remote_urls() {
    let k = parse_remote_url("s3://git-remote-s3/test").unwrap();
    assert_eq!(k.bucket, "git-remote-s3");
    assert_eq!(k.key, "test");
    let k = parse_remote_url("s3://bucket/a/b/").unwrap();
    assert_eq!(k.bucket, "bucket");
    assert_eq!(k.key, "a/b");
    assert_eq!(parse_remote_url("http://bucket/x").unwrap_err(), UrlError::NotS3);
    assert_eq!(parse_remote_url("s3://bucket").unwrap_err(), UrlError::NoPrefix);
    assert_eq!(parse_remote_url("s3://bucket/").unwrap_err(), UrlError::NoPrefix);
}

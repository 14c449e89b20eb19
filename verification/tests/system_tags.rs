use tropel_inputs::system_tags::{SystemTag, SystemTagSet};

#[test]
fn k6_default_set_is_the_documented_fourteen() {
    let d = SystemTagSet::k6_default();
    assert_eq!(
        d.names(),
        vec![
            "proto",
            "subproto",
            "status",
            "method",
            "url",
            "name",
            "group",
            "check",
            "error",
            "error_code",
            "tls_version",
            "scenario",
            "service",
            "expected_response",
        ],
        "the default set must be k6's DefaultSystemTagSet, exactly"
    );
    for off in [SystemTag::Vu, SystemTag::Iter, SystemTag::Ip, SystemTag::OcspStatus] {
        assert!(!d.has(off), "{} must be OFF by default (cardinality)", off.name());
    }
}

#[test]
fn declared_list_replaces_the_default_set() {
    let set = SystemTagSet::resolve(Some(&vec!["url".into(), "status".into()]));
    assert_eq!(set.names(), vec!["status", "url"]);
    assert!(!set.has(SystemTag::Method), "method was not requested");
    assert!(!set.has(SystemTag::Scenario), "scenario was not requested");
}

#[test]
fn explicit_empty_list_disables_every_system_tag() {
    let empty = SystemTagSet::resolve(Some(&vec![]));
    assert!(empty.names().is_empty(), "explicit [] must yield no tags");
    let absent = SystemTagSet::resolve(None);
    assert_eq!(
        absent.names().len(),
        14,
        "absent must fall back to the default 14, not to empty"
    );
}

#[test]
fn unknown_name_is_reported_and_does_not_restore_defaults() {
    let (set, unknown) = SystemTagSet::parse(&["url".into(), "stat_us".into(), "protocol".into()]);
    assert_eq!(
        unknown,
        vec!["stat_us".to_string(), "protocol".to_string()],
        "both typos must be reported"
    );
    assert_eq!(set.names(), vec!["url"], "only the valid name survives");
    assert!(
        !set.has(SystemTag::Status),
        "a typo must not enable the tag it resembles"
    );
}

#[test]
fn every_tag_name_round_trips_and_owns_a_unique_bit() {
    let mut seen = 0u32;
    for tag in SystemTag::ALL {
        assert_eq!(
            SystemTag::from_name(tag.name()),
            Some(tag),
            "{} must round-trip",
            tag.name()
        );
        let bit = tag.bit();
        assert_eq!(seen & bit, 0, "{} reuses another tag's bit", tag.name());
        seen |= bit;
    }
    assert_eq!(seen.count_ones(), 18);
}

#[test]
fn sets_with_the_same_tags_are_equal() {
    let a = SystemTagSet::empty().with(SystemTag::Vu).with(SystemTag::Ip);
    let b = SystemTagSet::empty().with(SystemTag::Ip).with(SystemTag::Vu).with(SystemTag::Vu);
    assert_eq!(a, b);
    assert_ne!(a, a.with(SystemTag::Iter));
    assert_eq!(SystemTagSet::resolve(None), SystemTagSet::k6_default());
    assert_eq!(SystemTagSet::resolve(Some(&Vec::new())), SystemTagSet::empty());
}

#[test]
fn the_names_of_a_set_give_it_back() {
    let mut all = SystemTagSet::empty();
    for tag in SystemTag::ALL {
        all = all.with(tag);
        let names: Vec<String> = all.names().iter().map(|n| n.to_string()).collect();
        assert_eq!(SystemTagSet::resolve(Some(&names)), all);
        assert_eq!(SystemTagSet::parse(&names).0, all);
    }
}

#[test]
fn a_set_holds_what_is_put_in() {
    let set = SystemTagSet::empty().with(SystemTag::Vu).with(SystemTag::Ip);
    assert!(set.has(SystemTag::Vu) && set.has(SystemTag::Ip) && !set.has(SystemTag::Iter));
    assert_eq!(SystemTagSet::default().names(), SystemTagSet::k6_default().names());
}

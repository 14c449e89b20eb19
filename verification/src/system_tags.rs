//! The system tags of a k6 script: `options.systemTags`.
//!
//! System tags are the series dimensions that the runner stamps onto every
//! sample on the script's behalf. Where the option is absent the fourteen default
//! tags apply. Where it is present, the listed tags replace the default set, and
//! an empty list means no system tags at all. A name that is not known is
//! reported and dropped; it never restores the default set.

use crate::text;
use vstd::prelude::*;

verus! {

/// One k6 system tag, in wire order.
#[derive(Debug, Clone, Copy, PartialEq, Eq, Structural)]
pub enum SystemTag {
    Proto,
    Subproto,
    Status,
    Method,
    Url,
    Name,
    Group,
    Check,
    Error,
    ErrorCode,
    TlsVersion,
    Scenario,
    Service,
    ExpectedResponse,
    Vu,
    Iter,
    Ip,
    OcspStatus,
}

/// The wire name of a tag, as it appears in threshold selectors and samples.
pub open spec fn tag_name(tag: SystemTag) -> Seq<char> {
    match tag {
        SystemTag::Proto => "proto"@,
        SystemTag::Subproto => "subproto"@,
        SystemTag::Status => "status"@,
        SystemTag::Method => "method"@,
        SystemTag::Url => "url"@,
        SystemTag::Name => "name"@,
        SystemTag::Group => "group"@,
        SystemTag::Check => "check"@,
        SystemTag::Error => "error"@,
        SystemTag::ErrorCode => "error_code"@,
        SystemTag::TlsVersion => "tls_version"@,
        SystemTag::Scenario => "scenario"@,
        SystemTag::Service => "service"@,
        SystemTag::ExpectedResponse => "expected_response"@,
        SystemTag::Vu => "vu"@,
        SystemTag::Iter => "iter"@,
        SystemTag::Ip => "ip"@,
        SystemTag::OcspStatus => "ocsp_status"@,
    }
}

/// The tag that bears the name `s`, if there is one.
pub open spec fn tag_named(s: Seq<char>) -> Option<SystemTag> {
    if exists|tag: SystemTag| tag_name(tag) == s {
        Some(choose|tag: SystemTag| tag_name(tag) == s)
    } else {
        None
    }
}

/// Every tag, in wire order.
pub open spec fn all_tags() -> Seq<SystemTag> {
    seq![
        SystemTag::Proto,
        SystemTag::Subproto,
        SystemTag::Status,
        SystemTag::Method,
        SystemTag::Url,
        SystemTag::Name,
        SystemTag::Group,
        SystemTag::Check,
        SystemTag::Error,
        SystemTag::ErrorCode,
        SystemTag::TlsVersion,
        SystemTag::Scenario,
        SystemTag::Service,
        SystemTag::ExpectedResponse,
        SystemTag::Vu,
        SystemTag::Iter,
        SystemTag::Ip,
        SystemTag::OcspStatus,
    ]
}

/// The position of a tag in wire order.
pub open spec fn tag_index(tag: SystemTag) -> u32 {
    match tag {
        SystemTag::Proto => 0,
        SystemTag::Subproto => 1,
        SystemTag::Status => 2,
        SystemTag::Method => 3,
        SystemTag::Url => 4,
        SystemTag::Name => 5,
        SystemTag::Group => 6,
        SystemTag::Check => 7,
        SystemTag::Error => 8,
        SystemTag::ErrorCode => 9,
        SystemTag::TlsVersion => 10,
        SystemTag::Scenario => 11,
        SystemTag::Service => 12,
        SystemTag::ExpectedResponse => 13,
        SystemTag::Vu => 14,
        SystemTag::Iter => 15,
        SystemTag::Ip => 16,
        SystemTag::OcspStatus => 17,
    }
}

/// No two tags share a name.
pub proof fn law_names_are_distinct(a: SystemTag, b: SystemTag)
    ensures
        tag_name(a) == tag_name(b) ==> a == b,
{
    reveal_strlit("proto");
    reveal_strlit("subproto");
    reveal_strlit("status");
    reveal_strlit("method");
    reveal_strlit("url");
    reveal_strlit("name");
    reveal_strlit("group");
    reveal_strlit("check");
    reveal_strlit("error");
    reveal_strlit("error_code");
    reveal_strlit("tls_version");
    reveal_strlit("scenario");
    reveal_strlit("service");
    reveal_strlit("expected_response");
    reveal_strlit("vu");
    reveal_strlit("iter");
    reveal_strlit("ip");
    reveal_strlit("ocsp_status");
    if tag_name(a) == tag_name(b) {
        assert(tag_name(a).len() == tag_name(b).len());
        assert(tag_name(a)[0] == tag_name(b)[0]);
        assert(tag_name(a)[1] == tag_name(b)[1]);
    }
}

/// Every tag is found again by its name.
pub proof fn law_names_round_trip(tag: SystemTag)
    ensures
        tag_named(tag_name(tag)) == Some(tag),
{
    let found = choose|other: SystemTag| tag_name(other) == tag_name(tag);
    law_names_are_distinct(found, tag);
}

/// Wire order lists every tag once.
proof fn lemma_all_tags(tag: SystemTag)
    ensures
        tag_index(tag) < 18,
        all_tags().len() == 18,
        all_tags()[tag_index(tag) as int] == tag,
{
}

impl SystemTag {
    /// The wire name of this tag.
    pub fn name(self) -> (r: &'static str)
        ensures
            r@ == tag_name(self),
    {
        match self {
            SystemTag::Proto => "proto",
            SystemTag::Subproto => "subproto",
            SystemTag::Status => "status",
            SystemTag::Method => "method",
            SystemTag::Url => "url",
            SystemTag::Name => "name",
            SystemTag::Group => "group",
            SystemTag::Check => "check",
            SystemTag::Error => "error",
            SystemTag::ErrorCode => "error_code",
            SystemTag::TlsVersion => "tls_version",
            SystemTag::Scenario => "scenario",
            SystemTag::Service => "service",
            SystemTag::ExpectedResponse => "expected_response",
            SystemTag::Vu => "vu",
            SystemTag::Iter => "iter",
            SystemTag::Ip => "ip",
            SystemTag::OcspStatus => "ocsp_status",
        }
    }

    /// The tag that bears the name `s`; `None` for a name that k6 does not define.
    pub fn from_name(s: &str) -> (r: Option<SystemTag>)
        ensures
            r == tag_named(s@),
    {
        let all = SystemTag::ALL;
        let mut i: usize = 0;
        while i < 18
            invariant
                i <= 18,
                all@ == all_tags(),
                forall|k: int| 0 <= k < i ==> tag_name(#[trigger] all_tags()[k]) != s@,
            decreases 18 - i,
        {
            let tag = all[i];
            if text::same_text(tag.name(), s) {
                proof {
                    law_names_round_trip(tag);
                }
                return Some(tag);
            }
            i += 1;
        }
        assert forall|tag: SystemTag| tag_name(tag) != s@ by {
            lemma_all_tags(tag);
        }
        None
    }

    /// Every tag that k6 defines, in wire order.
    pub const ALL: [SystemTag; 18] = [
        SystemTag::Proto,
        SystemTag::Subproto,
        SystemTag::Status,
        SystemTag::Method,
        SystemTag::Url,
        SystemTag::Name,
        SystemTag::Group,
        SystemTag::Check,
        SystemTag::Error,
        SystemTag::ErrorCode,
        SystemTag::TlsVersion,
        SystemTag::Scenario,
        SystemTag::Service,
        SystemTag::ExpectedResponse,
        SystemTag::Vu,
        SystemTag::Iter,
        SystemTag::Ip,
        SystemTag::OcspStatus,
    ];
}

/// The bit that stands for a tag.
pub open spec fn tag_bit(tag: SystemTag) -> u32 {
    1u32 << tag_index(tag)
}

impl SystemTag {
    /// The bit that stands for this tag in a [`SystemTagSet`].
    pub fn bit(self) -> (r: u32)
        ensures
            r == tag_bit(self),
    {
        let index: u32 = match self {
            SystemTag::Proto => 0,
            SystemTag::Subproto => 1,
            SystemTag::Status => 2,
            SystemTag::Method => 3,
            SystemTag::Url => 4,
            SystemTag::Name => 5,
            SystemTag::Group => 6,
            SystemTag::Check => 7,
            SystemTag::Error => 8,
            SystemTag::ErrorCode => 9,
            SystemTag::TlsVersion => 10,
            SystemTag::Scenario => 11,
            SystemTag::Service => 12,
            SystemTag::ExpectedResponse => 13,
            SystemTag::Vu => 14,
            SystemTag::Iter => 15,
            SystemTag::Ip => 16,
            SystemTag::OcspStatus => 17,
        };
        proof {
            lemma_all_tags(self);
        }
        1u32 << index
    }
}

/// Every tag owns a bit of its own.
pub proof fn law_bits_are_distinct(a: SystemTag, b: SystemTag)
    ensures
        tag_bit(a) != 0,
        a != b ==> tag_bit(a) & tag_bit(b) == 0,
{
    lemma_all_tags(a);
    lemma_all_tags(b);
    let i = tag_index(a);
    let j = tag_index(b);
    assert(1u32 << i != 0) by (bit_vector)
        requires
            i < 18,
    ;
    if a != b {
        assert(i != j);
        assert((1u32 << i) & (1u32 << j) == 0) by (bit_vector)
            requires
                i < 18,
                j < 18,
                i != j,
        ;
    }
}

proof fn lemma_bit_added(set: u32, added: SystemTag, tag: SystemTag)
    ensures
        ((set | tag_bit(added)) & tag_bit(tag) != 0) == (tag == added || set & tag_bit(tag) != 0),
{
    law_bits_are_distinct(tag, added);
    let a = tag_bit(added);
    let t = tag_bit(tag);
    assert((set | a) & t == (set & t) | (a & t)) by (bit_vector);
    if tag == added {
        assert((set & t) | (t & t) != 0) by (bit_vector)
            requires
                t != 0,
        ;
    } else {
        assert(a & t == t & a) by (bit_vector);
        let x = set & t;
        assert(x | 0 == x) by (bit_vector);
    }
}

/// A set of enabled system tags, one bit for each tag.
#[derive(Debug, Clone, Copy, PartialEq, Eq, Structural)]
pub struct SystemTagSet(u32);

impl SystemTagSet {
    /// No bit is set beyond those of the tags.
    #[verifier::type_invariant]
    pub closed spec fn is_valid(self) -> bool {
        self.0 < 0x4_0000
    }
}

impl View for SystemTagSet {
    type V = Set<SystemTag>;

    closed spec fn view(&self) -> Set<SystemTag> {
        Set::new(|tag: SystemTag| self.0 & tag_bit(tag) != 0)
    }
}

/// The bits of the tags in `members`, among the first `n` in wire order.
spec fn bits_of(members: Set<SystemTag>, n: nat) -> u32
    decreases n,
{
    if n == 0 {
        0
    } else if members.contains(all_tags()[n - 1]) {
        bits_of(members, (n - 1) as nat) | tag_bit(all_tags()[n - 1])
    } else {
        bits_of(members, (n - 1) as nat)
    }
}

/// The set with the given members.
pub closed spec fn set_of(members: Set<SystemTag>) -> SystemTagSet {
    SystemTagSet(bits_of(members, 18))
}

proof fn lemma_small_bit_added(set: u32, added: SystemTag)
    requires
        set < 0x4_0000,
    ensures
        set | tag_bit(added) < 0x4_0000,
{
    lemma_all_tags(added);
    let i = tag_index(added);
    assert(set | (1u32 << i) < 0x4_0000) by (bit_vector)
        requires
            set < 0x4_0000,
            i < 18,
    ;
}

proof fn lemma_bits_of(members: Set<SystemTag>, n: nat, tag: SystemTag)
    requires
        n <= 18,
    ensures
        bits_of(members, n) < 0x4_0000,
        (bits_of(members, n) & tag_bit(tag) != 0) == (tag_index(tag) < n && members.contains(tag)),
    decreases n,
{
    lemma_all_tags(tag);
    if n == 0 {
        let t = tag_bit(tag);
        assert(0u32 & t == 0) by (bit_vector);
    } else {
        let last = all_tags()[n - 1];
        lemma_all_tags(last);
        assert(tag_index(last) == n - 1);
        lemma_bits_of(members, (n - 1) as nat, tag);
        lemma_small_bit_added(bits_of(members, (n - 1) as nat), last);
        lemma_bit_added(bits_of(members, (n - 1) as nat), last, tag);
    }
}

/// For any tags there is a set that holds them and nothing else.
pub proof fn law_set_holds_its_members(members: Set<SystemTag>)
    ensures
        set_of(members).is_valid(),
        set_of(members)@ == members,
{
    assert forall|tag: SystemTag| #[trigger] set_of(members)@.contains(tag) == members.contains(
        tag,
    ) by {
        lemma_bits_of(members, 18, tag);
        lemma_all_tags(tag);
    }
    lemma_bits_of(members, 18, SystemTag::Proto);
    assert(set_of(members)@ =~= members);
}

/// Sets with the same members are the same set.
pub proof fn law_members_make_the_set(a: SystemTagSet, b: SystemTagSet)
    requires
        a.is_valid(),
        b.is_valid(),
        a@ == b@,
    ensures
        a == b,
{
    let x = a.0;
    let y = b.0;
    assert forall|tag: SystemTag| (x & #[trigger] tag_bit(tag) != 0) == (y & tag_bit(tag) != 0) by {
        assert(a@.contains(tag) == (x & tag_bit(tag) != 0));
        assert(b@.contains(tag) == (y & tag_bit(tag) != 0));
    }
    assert(tag_bit(SystemTag::Proto) == 1u32 << 0u32);
    assert(tag_bit(SystemTag::Subproto) == 1u32 << 1u32);
    assert(tag_bit(SystemTag::Status) == 1u32 << 2u32);
    assert(tag_bit(SystemTag::Method) == 1u32 << 3u32);
    assert(tag_bit(SystemTag::Url) == 1u32 << 4u32);
    assert(tag_bit(SystemTag::Name) == 1u32 << 5u32);
    assert(tag_bit(SystemTag::Group) == 1u32 << 6u32);
    assert(tag_bit(SystemTag::Check) == 1u32 << 7u32);
    assert(tag_bit(SystemTag::Error) == 1u32 << 8u32);
    assert(tag_bit(SystemTag::ErrorCode) == 1u32 << 9u32);
    assert(tag_bit(SystemTag::TlsVersion) == 1u32 << 10u32);
    assert(tag_bit(SystemTag::Scenario) == 1u32 << 11u32);
    assert(tag_bit(SystemTag::Service) == 1u32 << 12u32);
    assert(tag_bit(SystemTag::ExpectedResponse) == 1u32 << 13u32);
    assert(tag_bit(SystemTag::Vu) == 1u32 << 14u32);
    assert(tag_bit(SystemTag::Iter) == 1u32 << 15u32);
    assert(tag_bit(SystemTag::Ip) == 1u32 << 16u32);
    assert(tag_bit(SystemTag::OcspStatus) == 1u32 << 17u32);
    assert(x == y) by (bit_vector)
        requires
            x < 0x4_0000,
            y < 0x4_0000,
            (x & (1u32 << 0u32) != 0) == (y & (1u32 << 0u32) != 0),
            (x & (1u32 << 1u32) != 0) == (y & (1u32 << 1u32) != 0),
            (x & (1u32 << 2u32) != 0) == (y & (1u32 << 2u32) != 0),
            (x & (1u32 << 3u32) != 0) == (y & (1u32 << 3u32) != 0),
            (x & (1u32 << 4u32) != 0) == (y & (1u32 << 4u32) != 0),
            (x & (1u32 << 5u32) != 0) == (y & (1u32 << 5u32) != 0),
            (x & (1u32 << 6u32) != 0) == (y & (1u32 << 6u32) != 0),
            (x & (1u32 << 7u32) != 0) == (y & (1u32 << 7u32) != 0),
            (x & (1u32 << 8u32) != 0) == (y & (1u32 << 8u32) != 0),
            (x & (1u32 << 9u32) != 0) == (y & (1u32 << 9u32) != 0),
            (x & (1u32 << 10u32) != 0) == (y & (1u32 << 10u32) != 0),
            (x & (1u32 << 11u32) != 0) == (y & (1u32 << 11u32) != 0),
            (x & (1u32 << 12u32) != 0) == (y & (1u32 << 12u32) != 0),
            (x & (1u32 << 13u32) != 0) == (y & (1u32 << 13u32) != 0),
            (x & (1u32 << 14u32) != 0) == (y & (1u32 << 14u32) != 0),
            (x & (1u32 << 15u32) != 0) == (y & (1u32 << 15u32) != 0),
            (x & (1u32 << 16u32) != 0) == (y & (1u32 << 16u32) != 0),
            (x & (1u32 << 17u32) != 0) == (y & (1u32 << 17u32) != 0),
    ;
}

/// A set is the set of its members.
proof fn lemma_set_of_view(s: SystemTagSet)
    requires
        s.is_valid(),
    ensures
        s == set_of(s@),
{
    law_set_holds_its_members(s@);
    law_members_make_the_set(s, set_of(s@));
}

/// The tags that are enabled where a script says nothing.
pub open spec fn default_tags() -> Set<SystemTag> {
    Set::new(
        |tag: SystemTag|
            tag != SystemTag::Vu && tag != SystemTag::Iter && tag != SystemTag::Ip && tag
                != SystemTag::OcspStatus,
    )
}

/// The tags that a list of names enables.
pub open spec fn listed_tags(names: Seq<String>) -> Set<SystemTag> {
    Set::new(
        |tag: SystemTag|
            exists|i: int|
                0 <= i < names.len() && tag_named(text::trim((#[trigger] names[i])@)) == Some(tag),
    )
}

/// The tags of a script: the default ones where the option is absent, and
/// otherwise exactly the listed ones.
pub open spec fn effective_tags(declared: Option<&Vec<String>>) -> Set<SystemTag> {
    match declared {
        None => default_tags(),
        Some(names) => listed_tags(names@),
    }
}

/// A name in a `systemTags` list that names no tag.
pub open spec fn unknown_name() -> spec_fn(String) -> bool {
    |name: String| tag_named(text::trim(name@)) is None
}

/// The names of the tags in `set`, in wire order.
pub open spec fn names_in(set: Set<SystemTag>) -> Seq<Seq<char>> {
    all_tags().filter(|tag: SystemTag| set.contains(tag)).map_values(
        |tag: SystemTag| tag_name(tag),
    )
}

impl SystemTagSet {
    /// The fourteen tags that are enabled by default. `vu`, `iter`, `ip` and
    /// `ocsp_status` are off, because they multiply the number of series.
    pub fn k6_default() -> (r: Self)
        ensures
            r@ == default_tags(),
            r == set_of(default_tags()),
    {
        let r = SystemTagSet::empty()
            .with(SystemTag::Proto)
            .with(SystemTag::Subproto)
            .with(SystemTag::Status)
            .with(SystemTag::Method)
            .with(SystemTag::Url)
            .with(SystemTag::Name)
            .with(SystemTag::Group)
            .with(SystemTag::Check)
            .with(SystemTag::Error)
            .with(SystemTag::ErrorCode)
            .with(SystemTag::TlsVersion)
            .with(SystemTag::Scenario)
            .with(SystemTag::Service)
            .with(SystemTag::ExpectedResponse);
        assert(r@ =~= default_tags());
        proof {
            use_type_invariant(&r);
            lemma_set_of_view(r);
        }
        r
    }

    /// No tags at all.
    pub fn empty() -> (r: Self)
        ensures
            r@ == Set::<SystemTag>::empty(),
            r == set_of(Set::<SystemTag>::empty()),
    {
        let r = SystemTagSet(0);
        assert forall|tag: SystemTag| !r@.contains(tag) by {
            let t = tag_bit(tag);
            assert(0u32 & t == 0) by (bit_vector);
        }
        assert(r@ =~= Set::<SystemTag>::empty());
        proof {
            lemma_set_of_view(r);
        }
        r
    }

    /// Whether this tag is enabled.
    pub fn has(self, tag: SystemTag) -> (r: bool)
        ensures
            r == self@.contains(tag),
    {
        self.0 & tag.bit() != 0
    }

    /// The set with `tag` added.
    pub fn with(self, tag: SystemTag) -> (r: Self)
        ensures
            r@ == self@.insert(tag),
            r == set_of(self@.insert(tag)),
    {
        proof {
            use_type_invariant(&self);
            lemma_small_bit_added(self.0, tag);
        }
        let r = SystemTagSet(self.0 | tag.bit());
        assert forall|other: SystemTag| #[trigger]
            r@.contains(other) == self@.insert(tag).contains(other) by {
            lemma_bit_added(self.0, tag, other);
        }
        assert(r@ =~= self@.insert(tag));
        proof {
            lemma_set_of_view(r);
        }
        r
    }

    /// The set that a `systemTags` list enables, and the names in it that are
    /// not known, in the order of the list.
    pub fn parse(names: &[String]) -> (r: (Self, Vec<String>))
        ensures
            r.0@ == listed_tags(names@),
            r.0 == set_of(listed_tags(names@)),
            r.1@ == names@.filter(unknown_name()),
    {
        let mut set = SystemTagSet::empty();
        let mut unknown: Vec<String> = Vec::new();
        let mut i: usize = 0;
        assert(names@.take(0).filter(unknown_name()) =~= Seq::empty());
        assert(listed_tags(names@.take(0)) =~= Set::empty());
        while i < names.len()
            invariant
                i <= names@.len(),
                set@ == listed_tags(names@.take(i as int)),
                unknown@ == names@.take(i as int).filter(unknown_name()),
            decreases names@.len() - i,
        {
            let raw = &names[i];
            let ghost seen = names@.take(i as int);
            let ghost next = names@.take(i + 1);
            proof {
                assert(next =~= seen.push(*raw));
                assert(next.drop_last() =~= seen);
                reveal(Seq::filter);
                assert forall|tag: SystemTag| #[trigger]
                    listed_tags(next).contains(tag) == (listed_tags(seen).contains(tag)
                        || tag_named(text::trim(raw@)) == Some(tag)) by {
                    lemma_listed_push(seen, *raw, tag);
                }
            }
            match SystemTag::from_name(text::trimmed(raw.as_str()).as_str()) {
                Some(tag) => {
                    set = set.with(tag);
                },
                None => {
                    unknown.push(raw.clone());
                },
            }
            assert(set@ =~= listed_tags(next));
            i += 1;
        }
        assert(names@.take(names@.len() as int) =~= names@);
        proof {
            use_type_invariant(&set);
            lemma_set_of_view(set);
        }
        (set, unknown)
    }

    /// The effective set of a script: the default set where the option is
    /// absent, and otherwise exactly the listed tags.
    pub fn resolve(declared: Option<&Vec<String>>) -> (r: Self)
        ensures
            r@ == effective_tags(declared),
            r == set_of(effective_tags(declared)),
    {
        match declared {
            None => SystemTagSet::k6_default(),
            Some(names) => SystemTagSet::parse(names.as_slice()).0,
        }
    }

    /// The names of the enabled tags, in wire order.
    pub fn names(self) -> (r: Vec<&'static str>)
        ensures
            r@.map_values(|s: &'static str| s@) == names_in(self@),
    {
        let all = SystemTag::ALL;
        let ghost enabled = |tag: SystemTag| self@.contains(tag);
        let mut r: Vec<&'static str> = Vec::new();
        let mut i: usize = 0;
        assert(all_tags().take(0).filter(enabled) =~= Seq::empty());
        while i < 18
            invariant
                i <= 18,
                all@ == all_tags(),
                all_tags().len() == 18,
                enabled == (|tag: SystemTag| self@.contains(tag)),
                r@.map_values(|s: &'static str| s@) == all_tags().take(i as int).filter(
                    enabled,
                ).map_values(|tag: SystemTag| tag_name(tag)),
            decreases 18 - i,
        {
            let tag = all[i];
            let ghost seen = all_tags().take(i as int);
            let ghost before = r@;
            proof {
                assert(all_tags().take(i + 1).drop_last() =~= seen);
                reveal(Seq::filter);
            }
            if self.has(tag) {
                let name = tag.name();
                r.push(name);
                assert(r@.map_values(|s: &'static str| s@) =~= before.map_values(
                    |s: &'static str| s@,
                ).push(name@));
                assert(seen.filter(enabled).push(tag).map_values(|tag: SystemTag| tag_name(tag))
                    =~= seen.filter(enabled).map_values(|tag: SystemTag| tag_name(tag)).push(
                    tag_name(tag),
                ));
            }
            i += 1;
        }
        assert(all_tags().take(18) =~= all_tags());
        r
    }
}

proof fn lemma_listed_push(names: Seq<String>, name: String, tag: SystemTag)
    ensures
        listed_tags(names.push(name)).contains(tag) == (listed_tags(names).contains(tag)
            || tag_named(text::trim(name@)) == Some(tag)),
{
    let more = names.push(name);
    if listed_tags(names).contains(tag) {
        let i = choose|i: int|
            0 <= i < names.len() && tag_named(text::trim((#[trigger] names[i])@)) == Some(tag);
        assert(more[i] == names[i]);
    }
    if tag_named(text::trim(name@)) == Some(tag) {
        assert(more[names.len() as int] == name);
    }
    if listed_tags(more).contains(tag) {
        let i = choose|i: int|
            0 <= i < more.len() && tag_named(text::trim((#[trigger] more[i])@)) == Some(tag);
        if i < names.len() {
            assert(names[i] == more[i]);
        }
    }
}

impl Default for SystemTagSet {
    fn default() -> (r: Self)
        ensures
            r@ == default_tags(),
            r == set_of(default_tags()),
    {
        SystemTagSet::k6_default()
    }
}

/// Adding a tag adds that tag alone, adding it again changes nothing, and the
/// order in which tags are added does not matter.
pub proof fn law_tags_are_added_in_any_order(s: SystemTagSet, t: SystemTag, u: SystemTag)
    requires
        s.is_valid(),
    ensures
        ({
            let st = set_of(s@.insert(t));
            let su = set_of(s@.insert(u));
            &&& st@.contains(u) == (u == t || s@.contains(u))
            &&& set_of(st@.insert(t)) == st
            &&& set_of(st@.insert(u)) == set_of(su@.insert(t))
            &&& s@.contains(t) ==> st == s
        }),
{
    law_set_holds_its_members(s@.insert(t));
    law_set_holds_its_members(s@.insert(u));
    assert(s@.insert(t).insert(t) =~= s@.insert(t));
    assert(s@.insert(t).insert(u) =~= s@.insert(u).insert(t));
    if s@.contains(t) {
        assert(s@.insert(t) =~= s@);
        lemma_set_of_view(s);
    }
}

/// No white space stands around the name of a tag.
proof fn lemma_trimmed_name(tag: SystemTag)
    ensures
        text::trim(tag_name(tag)) == tag_name(tag),
{
    reveal_strlit("proto");
    reveal_strlit("subproto");
    reveal_strlit("status");
    reveal_strlit("method");
    reveal_strlit("url");
    reveal_strlit("name");
    reveal_strlit("group");
    reveal_strlit("check");
    reveal_strlit("error");
    reveal_strlit("error_code");
    reveal_strlit("tls_version");
    reveal_strlit("scenario");
    reveal_strlit("service");
    reveal_strlit("expected_response");
    reveal_strlit("vu");
    reveal_strlit("iter");
    reveal_strlit("ip");
    reveal_strlit("ocsp_status");
    let name = tag_name(tag);
    assert(name.len() > 0);
    assert(!text::is_white_space(name[0]));
    assert(!text::is_white_space(name.last()));
}

/// A list of the names of a set gives the set back.
pub proof fn law_names_give_the_set_back(s: SystemTagSet, names: Seq<String>)
    requires
        s.is_valid(),
        text::views(names) == names_in(s@),
    ensures
        set_of(listed_tags(names)) == s,
{
    let enabled = |tag: SystemTag| s@.contains(tag);
    let members = all_tags().filter(enabled);
    assert(names_in(s@) == members.map_values(|tag: SystemTag| tag_name(tag)));
    assert(names.len() == members.len());
    assert forall|tag: SystemTag| #[trigger] listed_tags(names).contains(tag) == s@.contains(
        tag,
    ) by {
        lemma_trimmed_name(tag);
        law_names_round_trip(tag);
        if s@.contains(tag) {
            lemma_all_tags(tag);
            all_tags().lemma_filter_contains(enabled, tag_index(tag) as int);
            assert(members.contains(tag));
            let i = choose|i: int| 0 <= i < members.len() && members[i] == tag;
            assert(names_in(s@)[i] == tag_name(tag));
            assert(text::views(names)[i] == names[i]@);
        }
        if listed_tags(names).contains(tag) {
            let i = choose|i: int|
                0 <= i < names.len() && tag_named(text::trim((#[trigger] names[i])@)) == Some(tag);
            assert(text::views(names)[i] == names[i]@);
            let other = members[i];
            assert(names_in(s@)[i] == tag_name(other));
            lemma_trimmed_name(other);
            law_names_round_trip(other);
            assert(other == tag);
            all_tags().lemma_filter_pred(enabled, i);
        }
    }
    assert(listed_tags(names) =~= s@);
    lemma_set_of_view(s);
}

/// A list replaces the default set: a tag is enabled only if the list names it.
pub proof fn law_list_replaces_defaults(names: Seq<String>, tag: SystemTag)
    requires
        listed_tags(names).contains(tag),
    ensures
        exists|i: int| 0 <= i < names.len() && text::trim((#[trigger] names[i])@) == tag_name(tag),
{
    let i = choose|i: int|
        0 <= i < names.len() && tag_named(text::trim((#[trigger] names[i])@)) == Some(tag);
    assert(text::trim(names[i]@) == tag_name(tag));
}

/// An empty list enables nothing, which differs from an absent option.
pub proof fn law_empty_list_enables_nothing()
    ensures
        listed_tags(Seq::empty()) == Set::<SystemTag>::empty(),
        listed_tags(Seq::empty()) != default_tags(),
{
    assert(listed_tags(Seq::empty()) =~= Set::empty());
    assert(default_tags().contains(SystemTag::Url));
}

/// A list of unknown names only enables nothing, whatever its length.
pub proof fn law_unknown_names_do_not_restore_defaults(names: Seq<String>)
    requires
        forall|i: int| 0 <= i < names.len() ==> tag_named(text::trim((#[trigger] names[i])@)) is None,
    ensures
        listed_tags(names) == Set::<SystemTag>::empty(),
{
    assert(listed_tags(names) =~= Set::empty());
}

/// Each tag is known by its own name.
pub proof fn law_each_tag_has_its_name(tag: SystemTag)
    ensures
        ({
            &&& tag == SystemTag::Proto <==> tag_name(tag) == "proto"@
            &&& tag == SystemTag::Subproto <==> tag_name(tag) == "subproto"@
            &&& tag == SystemTag::Status <==> tag_name(tag) == "status"@
            &&& tag == SystemTag::Method <==> tag_name(tag) == "method"@
            &&& tag == SystemTag::Url <==> tag_name(tag) == "url"@
            &&& tag == SystemTag::Name <==> tag_name(tag) == "name"@
            &&& tag == SystemTag::Group <==> tag_name(tag) == "group"@
            &&& tag == SystemTag::Check <==> tag_name(tag) == "check"@
            &&& tag == SystemTag::Error <==> tag_name(tag) == "error"@
            &&& tag == SystemTag::ErrorCode <==> tag_name(tag) == "error_code"@
            &&& tag == SystemTag::TlsVersion <==> tag_name(tag) == "tls_version"@
            &&& tag == SystemTag::Scenario <==> tag_name(tag) == "scenario"@
            &&& tag == SystemTag::Service <==> tag_name(tag) == "service"@
            &&& tag == SystemTag::ExpectedResponse <==> tag_name(tag) == "expected_response"@
            &&& tag == SystemTag::Vu <==> tag_name(tag) == "vu"@
            &&& tag == SystemTag::Iter <==> tag_name(tag) == "iter"@
            &&& tag == SystemTag::Ip <==> tag_name(tag) == "ip"@
            &&& tag == SystemTag::OcspStatus <==> tag_name(tag) == "ocsp_status"@
        }),
{
    law_names_are_distinct(tag, SystemTag::Proto);
    law_names_are_distinct(tag, SystemTag::Subproto);
    law_names_are_distinct(tag, SystemTag::Status);
    law_names_are_distinct(tag, SystemTag::Method);
    law_names_are_distinct(tag, SystemTag::Url);
    law_names_are_distinct(tag, SystemTag::Name);
    law_names_are_distinct(tag, SystemTag::Group);
    law_names_are_distinct(tag, SystemTag::Check);
    law_names_are_distinct(tag, SystemTag::Error);
    law_names_are_distinct(tag, SystemTag::ErrorCode);
    law_names_are_distinct(tag, SystemTag::TlsVersion);
    law_names_are_distinct(tag, SystemTag::Scenario);
    law_names_are_distinct(tag, SystemTag::Service);
    law_names_are_distinct(tag, SystemTag::ExpectedResponse);
    law_names_are_distinct(tag, SystemTag::Vu);
    law_names_are_distinct(tag, SystemTag::Iter);
    law_names_are_distinct(tag, SystemTag::Ip);
    law_names_are_distinct(tag, SystemTag::OcspStatus);
}

/// The tags come in wire order: protocol first, and those that multiply the number
/// of series last.
pub proof fn law_tags_come_in_wire_order()
    ensures
        all_tags().len() == 18,
        ({
            &&& tag_name(all_tags()[0]) == "proto"@
            &&& tag_name(all_tags()[1]) == "subproto"@
            &&& tag_name(all_tags()[2]) == "status"@
            &&& tag_name(all_tags()[3]) == "method"@
            &&& tag_name(all_tags()[4]) == "url"@
            &&& tag_name(all_tags()[5]) == "name"@
            &&& tag_name(all_tags()[6]) == "group"@
            &&& tag_name(all_tags()[7]) == "check"@
            &&& tag_name(all_tags()[8]) == "error"@
            &&& tag_name(all_tags()[9]) == "error_code"@
            &&& tag_name(all_tags()[10]) == "tls_version"@
            &&& tag_name(all_tags()[11]) == "scenario"@
            &&& tag_name(all_tags()[12]) == "service"@
            &&& tag_name(all_tags()[13]) == "expected_response"@
            &&& tag_name(all_tags()[14]) == "vu"@
            &&& tag_name(all_tags()[15]) == "iter"@
            &&& tag_name(all_tags()[16]) == "ip"@
            &&& tag_name(all_tags()[17]) == "ocsp_status"@
        }),
{
}

/// The tags that are enabled where a script says nothing are these fourteen.
pub proof fn law_default_tags(tag: SystemTag)
    ensures
        default_tags().contains(tag) <==> ({
            ||| tag_name(tag) == "proto"@
            ||| tag_name(tag) == "subproto"@
            ||| tag_name(tag) == "status"@
            ||| tag_name(tag) == "method"@
            ||| tag_name(tag) == "url"@
            ||| tag_name(tag) == "name"@
            ||| tag_name(tag) == "group"@
            ||| tag_name(tag) == "check"@
            ||| tag_name(tag) == "error"@
            ||| tag_name(tag) == "error_code"@
            ||| tag_name(tag) == "tls_version"@
            ||| tag_name(tag) == "scenario"@
            ||| tag_name(tag) == "service"@
            ||| tag_name(tag) == "expected_response"@
        }),
{
    law_each_tag_has_its_name(tag);
}

/// A name that is listed enables its tag, with or without space around it, and a
/// name that no tag bears is reported.
pub proof fn law_listed_names_enable_their_tags(names: Seq<String>, i: int, tag: SystemTag)
    requires
        0 <= i < names.len(),
    ensures
        text::trim(names[i]@) == tag_name(tag) ==> listed_tags(names).contains(tag),
        unknown_name()(names[i]) <==> forall|t: SystemTag| #[trigger]
            tag_name(t) != text::trim(names[i]@),
        listed_tags(names).contains(tag) ==> exists|k: int|
            0 <= k < names.len() && text::trim((#[trigger] names[k])@) == tag_name(tag),
{
    law_names_round_trip(tag);
    if listed_tags(names).contains(tag) {
        let k = choose|k: int|
            0 <= k < names.len() && tag_named(text::trim((#[trigger] names[k])@)) == Some(tag);
        assert(text::trim(names[k]@) == tag_name(tag));
    }
}

/// The names of a set are those of its tags, and no others.
pub proof fn law_names_of_a_set(set: Set<SystemTag>, name: Seq<char>)
    ensures
        names_in(set).contains(name) <==> exists|tag: SystemTag|
            set.contains(tag) && #[trigger] tag_name(tag) == name,
{
    let keep = |tag: SystemTag| set.contains(tag);
    let kept = all_tags().filter(keep);
    broadcast use vstd::seq_lib::group_filter_ensures;

    if names_in(set).contains(name) {
        let k = choose|k: int| 0 <= k < names_in(set).len() && names_in(set)[k] == name;
        assert(tag_name(kept[k]) == name);
        assert(keep(kept[k]));
    }
    if exists|tag: SystemTag| set.contains(tag) && #[trigger] tag_name(tag) == name {
        let tag = choose|tag: SystemTag| set.contains(tag) && #[trigger] tag_name(tag) == name;
        lemma_all_tags(tag);
        assert(all_tags()[tag_index(tag) as int] == tag && keep(tag));
        assert(kept.contains(tag));
        let k = choose|k: int| 0 <= k < kept.len() && kept[k] == tag;
        assert(names_in(set)[k] == name);
    }
}

/// A script without the option has the default tags. One with the option has the
/// tags that it lists and no others.
pub proof fn law_tags_of_a_script(names: &Vec<String>, tag: SystemTag)
    ensures
        effective_tags(None) == default_tags(),
        effective_tags(Some(names)).contains(tag) <==> exists|i: int|
            0 <= i < names@.len() && text::trim((#[trigger] names@[i])@) == tag_name(tag),
{
    if exists|i: int| 0 <= i < names@.len() && text::trim((#[trigger] names@[i])@) == tag_name(tag) {
        let i = choose|i: int|
            0 <= i < names@.len() && text::trim((#[trigger] names@[i])@) == tag_name(tag);
        law_listed_names_enable_their_tags(names@, i, tag);
    }
    if listed_tags(names@).contains(tag) {
        law_list_replaces_defaults(names@, tag);
    }
}

} // verus!

//! Access-control lists of usage profiles, and the merge of local overrides.

use vstd::prelude::*;

use crate::address::IpAddress;

verus! {

/// What an entry does with the traffic it matches.
#[derive(Clone, Copy, Debug, PartialEq, Eq, Structural)]
pub enum AceAction {
    Accept,
    Deny,
}

/// The transport protocol an entry matches.
#[derive(Clone, Copy, Debug, PartialEq, Eq, Structural)]
pub enum AceProtocol {
    Tcp,
    Udp,
    Protocol(u32),
}

/// The direction of the traffic a list speaks of, seen from the device.
#[derive(Clone, Copy, Debug, PartialEq, Eq, Structural)]
pub enum AclDirection {
    FromDevice,
    ToDevice,
}

/// The address family a list is written for.
#[derive(Clone, Copy, Debug, PartialEq, Eq, Structural)]
pub enum AclType {
    IPV6,
    IPV4,
}

/// A port, or an inclusive range of ports.
#[derive(Clone, Copy, Debug, PartialEq, Eq, Structural)]
pub enum AcePort {
    Single(u32),
    Range(u32, u32),
}

/// What an entry matches. Only the protocol and the remote endpoint take part
/// in rule compilation; the other fields are carried as the profile states them.
#[derive(Clone, Debug, PartialEq, Eq)]
pub struct AceMatches {
    pub protocol: Option<AceProtocol>,
    pub direction_initiated: Option<AclDirection>,
    pub address_mask: Option<IpAddress>,
    pub dnsname: Option<String>,
    pub source_port: Option<AcePort>,
    pub destination_port: Option<AcePort>,
}

/// An access-control entry.
#[derive(Clone, Debug, PartialEq, Eq)]
pub struct Ace {
    pub name: String,
    pub action: AceAction,
    pub matches: AceMatches,
}

/// An access-control list: a named, directed, ordered group of entries.
#[derive(Clone, Debug, PartialEq, Eq)]
pub struct Acl {
    pub name: String,
    pub packet_direction: AclDirection,
    pub acl_type: AclType,
    pub ace: Vec<Ace>,
}

/// The names of `acls`, in order.
pub open spec fn acl_names(acls: Seq<Acl>) -> Seq<Seq<char>> {
    acls.map_values(|a: Acl| a.name@)
}

/// Whether some list of `acls` is named `name`.
pub open spec fn has_acl_named(acls: Seq<Acl>, name: Seq<char>) -> bool {
    exists|i: int| 0 <= i < acls.len() && (#[trigger] acls[i]).name@ == name
}

/// Holds of a list that no list of `override_with` shares a name with.
pub open spec fn not_overridden(override_with: Seq<Acl>) -> spec_fn(Acl) -> bool {
    |a: Acl| !has_acl_named(override_with, a.name@)
}

/// The lists of `original` that `override_with` does not name, in their order,
/// followed by all of `override_with`.
pub open spec fn merged(original: Seq<Acl>, override_with: Seq<Acl>) -> Seq<Acl> {
    original.filter(not_overridden(override_with)) + override_with
}

fn names_acl(acls: &[Acl], name: &String) -> (r: bool)
    ensures
        r == has_acl_named(acls@, name@),
{
    let mut j: usize = 0;
    while j < acls.len()
        invariant
            0 <= j <= acls@.len(),
            forall|k: int| 0 <= k < j ==> (#[trigger] acls@[k]).name@ != name@,
        decreases acls@.len() - j,
    {
        if acls[j].name == *name {
            return true;
        }
        j += 1;
    }
    false
}

/// The lists that `refs` points to.
pub open spec fn derefs(refs: Seq<&Acl>) -> Seq<Acl> {
    refs.map_values(|a: &Acl| *a)
}

/// Merges local overrides into a profile's lists: the lists of `original` whose
/// name no override carries keep their order, and the overrides follow in
/// theirs. An override replaces a same-named list whole.
pub fn merge_acls<'a>(original: &'a [Acl], override_with: &'a [Acl]) -> (r: Vec<&'a Acl>)
    ensures
        derefs(r@) == merged(original@, override_with@),
{
    let mut r: Vec<&'a Acl> = Vec::new();
    let mut i: usize = 0;
    while i < original.len()
        invariant
            0 <= i <= original@.len(),
            derefs(r@) == original@.subrange(0, i as int).filter(not_overridden(override_with@)),
        decreases original@.len() - i,
    {
        proof {
            original@.subrange(0, i as int).lemma_filter_push(
                original@[i as int],
                not_overridden(override_with@),
            );
            assert(original@.subrange(0, i as int).push(original@[i as int])
                =~= original@.subrange(0, i as int + 1));
        }
        let ghost old_r = r@;
        let named = names_acl(override_with, &original[i].name);
        if !named {
            r.push(&original[i]);
            assert(derefs(r@) =~= derefs(old_r).push(original@[i as int]));
        }
        i += 1;
    }
    assert(original@.subrange(0, original@.len() as int) =~= original@);
    let ghost base = derefs(r@);
    let mut j: usize = 0;
    while j < override_with.len()
        invariant
            0 <= j <= override_with@.len(),
            derefs(r@) == base + override_with@.subrange(0, j as int),
        decreases override_with@.len() - j,
    {
        let ghost old_r = r@;
        r.push(&override_with[j]);
        assert(derefs(r@) =~= derefs(old_r).push(override_with@[j as int]));
        j += 1;
        assert(derefs(r@) =~= base + override_with@.subrange(0, j as int));
    }
    assert(override_with@.subrange(0, override_with@.len() as int) =~= override_with@);
    r
}

/// No two lists of `acls` share a name.
pub open spec fn distinct_names(acls: Seq<Acl>) -> bool {
    forall|i: int, j: int|
        0 <= i < j < acls.len() ==> (#[trigger] acls[i]).name@ != (#[trigger] acls[j]).name@
}

proof fn lemma_filter_keeps_distinct(acls: Seq<Acl>, keep: spec_fn(Acl) -> bool)
    ensures
        forall|k: int|
            0 <= k < acls.filter(keep).len() ==> acls.contains(#[trigger] acls.filter(keep)[k]),
        distinct_names(acls) ==> distinct_names(acls.filter(keep)),
    decreases acls.len(),
{
    if acls.len() > 0 {
        let prefix = acls.drop_last();
        let last = acls.last();
        lemma_filter_keeps_distinct(prefix, keep);
        assert(prefix.push(last) =~= acls);
        prefix.lemma_filter_push(last, keep);
        assert forall|k: int| 0 <= k < acls.filter(keep).len() implies acls.contains(
            #[trigger] acls.filter(keep)[k],
        ) by {
            if k < prefix.filter(keep).len() {
                let x = prefix.filter(keep)[k];
                let w = choose|w: int| 0 <= w < prefix.len() && prefix[w] == x;
                assert(acls[w] == x);
            } else {
                assert(acls[acls.len() - 1] == last);
            }
        }
        if distinct_names(acls) && keep(last) {
            assert forall|k: int| 0 <= k < prefix.filter(keep).len() implies (#[trigger] prefix.filter(
                keep,
            )[k]).name@ != last.name@ by {
                let x = prefix.filter(keep)[k];
                let w = choose|w: int| 0 <= w < prefix.len() && prefix[w] == x;
                assert(acls[w] == x);
                assert(acls[acls.len() - 1] == last);
            }
        }
        if distinct_names(acls) {
            assert(distinct_names(prefix)) by {
                assert forall|i: int, j: int| 0 <= i < j < prefix.len() implies (#[trigger] prefix[i]).name@
                    != (#[trigger] prefix[j]).name@ by {
                    assert(acls[i] == prefix[i] && acls[j] == prefix[j]);
                }
            }
        }
    } else {
        assert(acls.filter(keep) =~= acls);
    }
}

proof fn lemma_filter_all_kept(acls: Seq<Acl>, keep: spec_fn(Acl) -> bool)
    requires
        forall|k: int| 0 <= k < acls.len() ==> keep(#[trigger] acls[k]),
    ensures
        acls.filter(keep) == acls,
    decreases acls.len(),
{
    if acls.len() > 0 {
        let prefix = acls.drop_last();
        assert forall|k: int| 0 <= k < prefix.len() implies keep(#[trigger] prefix[k]) by {
            assert(acls[k] == prefix[k]);
        }
        lemma_filter_all_kept(prefix, keep);
        assert(keep(acls[acls.len() - 1]));
        prefix.lemma_filter_push(acls.last(), keep);
        assert(prefix.push(acls.last()) =~= acls);
    } else {
        assert(acls.filter(keep) =~= acls);
    }
}

/// The merge keeps every list exactly once under its name: each override, with
/// the override's content, in its order, at the end; before them each original
/// list whose name no override carries, with the original's content and in the
/// original order; and no other list, and no name twice.
pub proof fn merge_law(original: Seq<Acl>, override_with: Seq<Acl>)
    requires
        distinct_names(original),
        distinct_names(override_with),
    ensures
        ({
            let m = merged(original, override_with);
            let n = m.len() - override_with.len();
            &&& 0 <= n <= original.len()
            &&& m.subrange(n, m.len() as int) == override_with
            &&& forall|k: int|
                0 <= k < n ==> original.contains(#[trigger] m[k]) && !has_acl_named(
                    override_with,
                    m[k].name@,
                )
            &&& forall|a: Acl|
                original.contains(a) && !has_acl_named(override_with, a.name@)
                    ==> #[trigger] m.subrange(0, n).contains(a)
            &&& distinct_names(m)
        }),
{
    let keep = not_overridden(override_with);
    let kept = original.filter(keep);
    let m = merged(original, override_with);
    lemma_filter_keeps_distinct(original, keep);
    original.lemma_filter_len(keep);
    assert(m.subrange(kept.len() as int, m.len() as int) =~= override_with);
    assert(m.subrange(0, kept.len() as int) =~= kept);
    assert forall|k: int| 0 <= k < kept.len() implies original.contains(#[trigger] m[k])
        && !has_acl_named(override_with, m[k].name@) by {
        assert(m[k] == kept[k]);
        original.lemma_filter_pred(keep, k);
    }
    assert forall|a: Acl|
        original.contains(a) && !has_acl_named(override_with, a.name@) implies #[trigger] m.subrange(
        0,
        kept.len() as int,
    ).contains(a) by {
        original.lemma_filter_contains_rev(keep, a);
    }
    assert forall|i: int, j: int| 0 <= i < j < m.len() implies (#[trigger] m[i]).name@
        != (#[trigger] m[j]).name@ by {
        if j < kept.len() {
            assert(m[i] == kept[i] && m[j] == kept[j]);
        } else if i < kept.len() {
            assert(m[j] == override_with[j - kept.len()]);
            original.lemma_filter_pred(keep, i);
        } else {
            assert(m[i] == override_with[i - kept.len()]);
            assert(m[j] == override_with[j - kept.len()]);
        }
    }
}

/// Merging with no overrides leaves the original lists as they are.
pub proof fn merge_without_overrides_is_identity(original: Seq<Acl>)
    ensures
        merged(original, Seq::empty()) == original,
{
    let keep = not_overridden(Seq::empty());
    assert forall|k: int| 0 <= k < original.len() implies keep(#[trigger] original[k]) by {}
    lemma_filter_all_kept(original, keep);
    assert(original.filter(keep) + Seq::<Acl>::empty() =~= original);
}

} // verus!

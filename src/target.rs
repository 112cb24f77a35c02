//! The target grammar: `host`, `user@host`, `cluster#service` or
//! `cluster#service#container`, and the identifier at the end of an ARN.
use crate::text::{lemma_split_last, lemma_split_len, split_on, split_spec};
use vstd::prelude::*;
use vstd::string::*;

verus! {

/// The identifier at the end of an ARN: what follows its last `/`.
pub open spec fn arn_id(arn: Seq<char>) -> Seq<char> {
    split_spec(arn, '/').last()
}

/// The identifier of an ARN is the text after its last `/`, or the whole ARN
/// where it has no `/`.
pub proof fn lemma_arn_id_is_trailing_segment(arn: Seq<char>)
    ensures
        !arn_id(arn).contains('/'),
        arn_id(arn).len() <= arn.len(),
        arn_id(arn) == arn.subrange(arn.len() - arn_id(arn).len(), arn.len() as int),
        !arn.contains('/') ==> arn_id(arn) == arn,
        arn.contains('/') ==> arn[arn.len() - arn_id(arn).len() - 1] == '/',
{
    lemma_split_last(arn, '/');
}

/// The identifier at the end of `arn`: the text after its last `/`.
pub fn arn_to_id(arn: &str) -> (r: &str)
    ensures
        r@ == arn_id(arn@),
{
    let n = arn.unicode_len();
    let mut start: usize = 0;
    let mut i: usize = 0;
    assert(arn@.subrange(0, 0) =~= Seq::<char>::empty());
    while i < n
        invariant
            n == arn@.len(),
            start <= i <= n,
            arn@.subrange(start as int, i as int) == split_spec(arn@.subrange(0, i as int), '/').last(),
        decreases n - i,
    {
        let ghost pre = arn@.subrange(0, i as int);
        let ghost next = arn@.subrange(0, i + 1);
        assert(next.drop_last() =~= pre);
        proof {
            lemma_split_len(pre, '/');
        }
        if arn.get_char(i) == '/' {
            start = i + 1;
            assert(arn@.subrange(start as int, i + 1) =~= Seq::<char>::empty());
        } else {
            assert(arn@.subrange(start as int, i + 1) =~= arn@.subrange(start as int, i as int).push(
                arn@[i as int],
            ));
        }
        i = i + 1;
    }
    assert(arn@.subrange(0, n as int) =~= arn@);
    arn.substring_char(start, n)
}

/// What a target names.
pub enum Target {
    /// The containers of a service's tasks, or only those with the given name.
    Service { cluster: String, service: String, container: Option<String> },
    /// Running virtual machines whose `Name` tag is `host`.
    Host { host: String },
}

/// What a `Target` holds, as character sequences.
pub enum TargetView {
    Service { cluster: Seq<char>, service: Seq<char>, container: Option<Seq<char>> },
    Host { host: Seq<char> },
}

impl View for Target {
    type V = TargetView;

    open spec fn view(&self) -> TargetView {
        match self {
            Target::Service { cluster, service, container } => TargetView::Service {
                cluster: cluster@,
                service: service@,
                container: match container {
                    Some(c) => Some(c@),
                    None => None,
                },
            },
            Target::Host { host } => TargetView::Host { host: host@ },
        }
    }
}

/// The target that `t` names, or `None` where `t` is malformed: with a `#`,
/// two or three `#`-separated parts; else with an `@`, exactly two
/// `@`-separated parts, of which the second is the host; else the whole of
/// `t` is the host.
pub open spec fn parse_target_spec(t: Seq<char>) -> Option<TargetView> {
    if t.contains('#') {
        let parts = split_spec(t, '#');
        if parts.len() == 2 {
            Some(TargetView::Service { cluster: parts[0], service: parts[1], container: None })
        } else if parts.len() == 3 {
            Some(
                TargetView::Service {
                    cluster: parts[0],
                    service: parts[1],
                    container: Some(parts[2]),
                },
            )
        } else {
            None
        }
    } else if t.contains('@') {
        let parts = split_spec(t, '@');
        if parts.len() == 2 {
            Some(TargetView::Host { host: parts[1] })
        } else {
            None
        }
    } else {
        Some(TargetView::Host { host: t })
    }
}

/// A target that the grammar does not accept.
pub enum TargetError {
    InvalidFormat,
}

/// Reads a target.
pub fn parse_target(target: &str) -> (r: Result<Target, TargetError>)
    ensures
        match r {
            Ok(t) => parse_target_spec(target@) == Some(t@),
            Err(TargetError::InvalidFormat) => parse_target_spec(target@) is None,
        },
{
    let mut parts = split_on(target, '#');
    let ghost hash_parts = split_spec(target@, '#');
    proof {
        lemma_split_len(target@, '#');
        lemma_split_len(target@, '@');
    }
    assert(parts@.len() == hash_parts.len());
    if parts.len() > 1 {
        if parts.len() == 2 {
            let service = parts.pop().unwrap();
            let cluster = parts.pop().unwrap();
            assert(service@ == hash_parts[1]);
            assert(cluster@ == hash_parts[0]);
            return Ok(Target::Service { cluster, service, container: None });
        } else if parts.len() == 3 {
            let container = parts.pop().unwrap();
            let service = parts.pop().unwrap();
            let cluster = parts.pop().unwrap();
            assert(container@ == hash_parts[2]);
            assert(service@ == hash_parts[1]);
            assert(cluster@ == hash_parts[0]);
            return Ok(Target::Service { cluster, service, container: Some(container) });
        } else {
            return Err(TargetError::InvalidFormat);
        }
    }
    let mut parts = split_on(target, '@');
    let ghost at_parts = split_spec(target@, '@');
    assert(parts@.len() == at_parts.len());
    if parts.len() > 1 {
        if parts.len() == 2 {
            let host = parts.pop().unwrap();
            assert(host@ == at_parts[1]);
            Ok(Target::Host { host })
        } else {
            Err(TargetError::InvalidFormat)
        }
    } else {
        Ok(Target::Host { host: String::from_str(target) })
    }
}

} // verus!

//! Actor addresses: a URI plus, once resolved, a handle to the actor's mailbox.
use vstd::prelude::*;
use vstd::string::*;
use crate::uri::{Scheme, Uri, UriView, valid_segment, direct_parent, separator};

verus! {

/// The decimal digit for `d < 10`.
pub open spec fn digit(d: nat) -> char {
    if d == 0 { '0' }
    else if d == 1 { '1' }
    else if d == 2 { '2' }
    else if d == 3 { '3' }
    else if d == 4 { '4' }
    else if d == 5 { '5' }
    else if d == 6 { '6' }
    else if d == 7 { '7' }
    else if d == 8 { '8' }
    else { '9' }
}

/// The decimal form of `n`, without leading zeros.
pub open spec fn decimal(n: nat) -> Seq<char>
    decreases n,
{
    if n < 10 {
        seq![digit(n)]
    } else {
        decimal(n / 10).push(digit(n % 10))
    }
}

/// The separator between a child's name and its sibling index.
pub open spec fn index_mark() -> char {
    '-'
}

/// The path segment of a child named `name` with sibling index `index`.
pub open spec fn child_segment(name: Seq<char>, index: nat) -> Seq<char> {
    name + seq![index_mark()] + decimal(index)
}

/// Handle on an actor: its URI and, once known, the sending end of its mailbox.
#[derive(Clone, Debug)]
pub struct ActorAddress<M> {
    pub uri: Uri,
    pub mailbox: Option<M>,
}

impl<M> ActorAddress<M> {
    pub open spec fn wf(&self) -> bool {
        self.uri.wf()
    }

    /// The address of a root actor: path `[name]`, not yet resolved.
    pub fn new_root(name: &str) -> (r: ActorAddress<M>)
        requires
            valid_segment(name@),
        ensures
            r.uri@ == (Scheme::Local, seq![name@]),
            r.mailbox is None,
            r.wf(),
    {
        let names: [&str; 1] = [name];
        let uri = Uri::new(Scheme::Local, names.as_slice());
        assert(names@.map_values(|s: &str| s@) =~= seq![name@]);
        ActorAddress { uri, mailbox: None }
    }

    /// The address of the child `name` with sibling index `id`, not yet resolved.
    pub fn new_child(parent: &ActorAddress<M>, name: &str, id: usize) -> (r: ActorAddress<M>)
        requires
            parent.wf(),
            !name@.contains(separator()),
        ensures
            r.uri@ == (parent.uri@.0, parent.uri@.1.push(child_segment(name@, id as nat))),
            direct_parent(parent.uri@, r.uri@),
            r.mailbox is None,
            r.wf(),
    {
        let mut seg = String::from_str(name);
        proof {
            reveal_strlit("-");
        }
        seg.append("-");
        append_decimal(&mut seg, id);
        proof {
            lemma_decimal_no_separator(id as nat);
            assert("-"@ =~= seq![index_mark()]);
            assert(seg@ =~= child_segment(name@, id as nat));
            assert(!seg@.contains(separator())) by {
                if seg@.contains(separator()) {
                    let k = choose|k: int| 0 <= k < seg@.len() && seg@[k] == separator();
                    if k < name@.len() {
                        assert(name@[k] == separator());
                    } else if k > name@.len() {
                        assert(decimal(id as nat)[k - name@.len() - 1] == separator());
                    }
                }
            }
        }
        let uri = parent.uri.new_child(seg.as_str());
        ActorAddress { uri, mailbox: None }
    }

    /// A copy of the URI.
    pub fn uri(&self) -> (r: Uri)
        ensures
            r@ == self.uri@,
    {
        self.uri.duplicate()
    }

    /// Records the mailbox handle that resolution found.
    pub fn set_mailbox(&mut self, mailbox: M)
        ensures
            final(self).uri == old(self).uri,
            final(self).mailbox == Some(mailbox),
    {
        self.mailbox = Some(mailbox);
    }

    /// True iff a mailbox handle is known.
    pub fn is_resolved(&self) -> (r: bool)
        ensures
            r == self.mailbox is Some,
    {
        self.mailbox.is_some()
    }

    /// True iff `maybe_parent` is this actor's direct parent.
    pub fn is_parent(&self, maybe_parent: &ActorAddress<M>) -> (r: bool)
        ensures
            r == direct_parent(maybe_parent.uri@, self.uri@),
    {
        self.uri.is_parent(&maybe_parent.uri)
    }
}

/// Mints the address of a new child of `own` named `name`, whose sibling index
/// is the number of children so far, and records it among `children`.
pub fn spawn_child_address<M>(
    own: &ActorAddress<M>,
    children: &mut Vec<ActorAddress<M>>,
    name: &str,
) -> (r: ActorAddress<M>)
    requires
        own.wf(),
        !name@.contains(separator()),
    ensures
        r.uri@ == (own.uri@.0, own.uri@.1.push(
            child_segment(name@, old(children)@.len() as nat),
        )),
        r.mailbox is None,
        r.wf(),
        final(children)@.len() == old(children)@.len() + 1,
        final(children)@.take(old(children)@.len() as int) == old(children)@,
        final(children)@.last().uri@ == r.uri@,
        final(children)@.last().mailbox is None,
{
    let id = children.len();
    let recorded = ActorAddress::new_child(own, name, id);
    let r = ActorAddress { uri: recorded.uri(), mailbox: None };
    children.push(recorded);
    assert(children@.take(id as int) =~= old(children)@);
    r
}

/// The one-character string of a decimal digit.
fn digit_str(d: usize) -> (r: &'static str)
    requires
        d < 10,
    ensures
        r@ == seq![digit(d as nat)],
{
    proof {
        reveal_strlit("0");
        reveal_strlit("1");
        reveal_strlit("2");
        reveal_strlit("3");
        reveal_strlit("4");
        reveal_strlit("5");
        reveal_strlit("6");
        reveal_strlit("7");
        reveal_strlit("8");
        reveal_strlit("9");
    }
    let r = if d == 0 { "0" }
    else if d == 1 { "1" }
    else if d == 2 { "2" }
    else if d == 3 { "3" }
    else if d == 4 { "4" }
    else if d == 5 { "5" }
    else if d == 6 { "6" }
    else if d == 7 { "7" }
    else if d == 8 { "8" }
    else { "9" };
    assert(r@ =~= seq![digit(d as nat)]);
    r
}

/// Appends the decimal form of `n` to `out`.
fn append_decimal(out: &mut String, n: usize)
    ensures
        final(out)@ == old(out)@ + decimal(n as nat),
    decreases n,
{
    if n >= 10 {
        append_decimal(out, n / 10);
    }
    out.append(digit_str(n % 10));
    proof {
        if n >= 10 {
            assert(old(out)@ + decimal(n as nat) =~= old(out)@ + decimal((n / 10) as nat) + seq![digit((n % 10) as nat)]);
        } else {
            assert(old(out)@ + decimal(n as nat) =~= old(out)@ + seq![digit((n % 10) as nat)]);
        }
    }
}

proof fn lemma_decimal_no_separator(n: nat)
    ensures
        forall|k: int| 0 <= k < decimal(n).len() ==> (#[trigger] decimal(n)[k]) != separator() && decimal(n)[k] != index_mark(),
        decimal(n).len() >= 1,
        n >= 10 ==> decimal(n).len() >= 2,
    decreases n,
{
    if n >= 10 {
        lemma_decimal_no_separator(n / 10);
        assert forall|k: int| 0 <= k < decimal(n).len() implies (#[trigger] decimal(n)[k]) != separator() && decimal(n)[k] != index_mark() by {
            if k < decimal(n / 10).len() {
                assert(decimal(n)[k] == decimal(n / 10)[k]);
            }
        }
    }
}

proof fn lemma_digit_injective(a: nat, b: nat)
    requires
        a < 10,
        b < 10,
        digit(a) == digit(b),
    ensures
        a == b,
{
}

proof fn lemma_decimal_injective(a: nat, b: nat)
    requires
        decimal(a) == decimal(b),
    ensures
        a == b,
    decreases a,
{
    lemma_decimal_no_separator(a);
    lemma_decimal_no_separator(b);
    if a < 10 && b < 10 {
        assert(decimal(a)[0] == digit(a));
        lemma_digit_injective(a, b);
    } else if a >= 10 && b >= 10 {
        assert(decimal(a).last() == digit(a % 10));
        assert(decimal(b).last() == digit(b % 10));
        lemma_digit_injective(a % 10, b % 10);
        assert(decimal(a).drop_last() =~= decimal(a / 10));
        assert(decimal(b).drop_last() =~= decimal(b / 10));
        lemma_decimal_injective(a / 10, b / 10);
        assert(a == 10 * (a / 10) + a % 10) by (nonlinear_arith);
        assert(b == 10 * (b / 10) + b % 10) by (nonlinear_arith);
    }
}

/// Distinct (name, sibling index) pairs give distinct child segments: the index
/// is the digits after the last `-`.
pub proof fn lemma_child_segment_injective(n1: Seq<char>, i1: nat, n2: Seq<char>, i2: nat)
    requires
        child_segment(n1, i1) == child_segment(n2, i2),
    ensures
        n1 == n2,
        i1 == i2,
{
    let s = child_segment(n1, i1);
    let d1 = decimal(i1);
    let d2 = decimal(i2);
    lemma_decimal_no_separator(i1);
    lemma_decimal_no_separator(i2);
    if d1.len() < d2.len() {
        let p = s.len() - d1.len() - 1;
        assert(s[p] == index_mark());
        assert(child_segment(n2, i2)[p] == d2[p - n2.len() - 1]);
    } else if d2.len() < d1.len() {
        let p = s.len() - d2.len() - 1;
        assert(child_segment(n2, i2)[p] == index_mark());
        assert(s[p] == d1[p - n1.len() - 1]);
    } else {
        assert(d1 =~= s.skip(s.len() - d1.len()));
        assert(d2 =~= child_segment(n2, i2).skip(s.len() - d2.len()));
        lemma_decimal_injective(i1, i2);
        assert(n1 =~= s.take(n1.len() as int));
        assert(n2 =~= child_segment(n2, i2).take(n2.len() as int));
    }
}

/// Address uniqueness: children of one parent spawned with distinct names or
/// distinct sibling indices have distinct URIs.
pub proof fn lemma_child_uris_distinct(
    parent: UriView,
    n1: Seq<char>,
    i1: nat,
    n2: Seq<char>,
    i2: nat,
)
    requires
        n1 != n2 || i1 != i2,
    ensures
        (parent.0, parent.1.push(child_segment(n1, i1))) != (parent.0, parent.1.push(
            child_segment(n2, i2),
        )),
{
    if parent.1.push(child_segment(n1, i1)) == parent.1.push(child_segment(n2, i2)) {
        assert(parent.1.push(child_segment(n1, i1)).last() == child_segment(n1, i1));
        lemma_child_segment_injective(n1, i1, n2, i2);
    }
}

} // verus!

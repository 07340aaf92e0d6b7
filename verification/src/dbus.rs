//! D-Bus bookkeeping: signal match rules, subscriptions, and the calls
//! still waiting for their reply.
use std::collections::HashMap;

use vstd::prelude::*;

use crate::text::string_from_chars;

verus! {

broadcast use vstd::std_specs::hash::group_hash_axioms;

/// A handle to an installed match rule; keep it to unsubscribe later.
#[derive(Clone, Debug)]
pub struct Subscription {
    pub rule: String,
    pub serial: u32,
}

/// A rule selecting the signals of one interface member, optionally from
/// one sender and on one object path.
pub struct MatchRule {
    interface: &'static str,
    member: &'static str,
    sender: Option<String>,
    path: Option<String>,
}

/// `s` between single quotes.
pub open spec fn quoted(s: Seq<char>) -> Seq<char> {
    seq!['\''] + s + seq!['\'']
}

/// The text of a match rule, in the bus daemon's syntax.
pub open spec fn rule_text(
    interface: Seq<char>,
    member: Seq<char>,
    sender: Option<Seq<char>>,
    path: Option<Seq<char>>,
) -> Seq<char> {
    "type='signal',interface="@ + quoted(interface) + ",member="@ + quoted(member)
        + match sender {
        Some(s) => ",sender="@ + quoted(s),
        None => Seq::empty(),
    } + match path {
        Some(p) => ",path="@ + quoted(p),
        None => Seq::empty(),
    }
}

/// Appends the characters of `s`.
fn push_str(out: &mut Vec<char>, s: &str)
    ensures
        final(out)@ == old(out)@ + s@,
{
    let n = s.unicode_len();
    let mut i: usize = 0;
    while i < n
        invariant
            n == s@.len(),
            i <= n,
            out@ == old(out)@ + s@.take(i as int),
        decreases n - i,
    {
        out.push(s.get_char(i));
        i = i + 1;
        assert(out@ =~= old(out)@ + s@.take(i as int));
    }
    assert(s@.take(n as int) =~= s@);
}

/// Appends `'s'`.
fn push_quoted(out: &mut Vec<char>, s: &str)
    ensures
        final(out)@ == old(out)@ + quoted(s@),
{
    out.push('\'');
    push_str(out, s);
    out.push('\'');
    assert(out@ =~= old(out)@ + quoted(s@));
}

/// The view of an optional string.
pub open spec fn opt_view(s: Option<String>) -> Option<Seq<char>> {
    match s {
        Some(t) => Some(t@),
        None => None,
    }
}

impl MatchRule {
    /// The rule's interface.
    pub closed spec fn interface_view(&self) -> Seq<char> {
        self.interface@
    }

    /// The rule's member.
    pub closed spec fn member_view(&self) -> Seq<char> {
        self.member@
    }

    /// The sender the rule is restricted to, if any.
    pub closed spec fn sender_view(&self) -> Option<Seq<char>> {
        opt_view(self.sender)
    }

    /// The object path the rule is restricted to, if any.
    pub closed spec fn path_view(&self) -> Option<Seq<char>> {
        opt_view(self.path)
    }

    /// Signals `member` of `interface`, from any sender on any path.
    pub fn signal(interface: &'static str, member: &'static str) -> (r: Self)
        ensures
            r.interface_view() == interface@,
            r.member_view() == member@,
            r.sender_view() is None,
            r.path_view() is None,
    {
        MatchRule { interface, member, sender: None, path: None }
    }

    /// The same rule, restricted to sender `s`.
    pub fn sender(self, s: String) -> (r: Self)
        ensures
            r.interface_view() == self.interface_view(),
            r.member_view() == self.member_view(),
            r.sender_view() == Some(s@),
            r.path_view() == self.path_view(),
    {
        MatchRule { sender: Some(s), ..self }
    }

    /// The same rule, restricted to object path `p`.
    pub fn path(self, p: String) -> (r: Self)
        ensures
            r.interface_view() == self.interface_view(),
            r.member_view() == self.member_view(),
            r.sender_view() == self.sender_view(),
            r.path_view() == Some(p@),
    {
        MatchRule { path: Some(p), ..self }
    }

    /// The rule as the bus daemon reads it, e.g.
    /// `type='signal',interface='I',member='M',sender='S',path='P'`.
    pub fn rule(&self) -> (s: String)
        ensures
            s@ == rule_text(self.interface_view(), self.member_view(), self.sender_view(), self.path_view()),
    {
        let mut cs: Vec<char> = Vec::new();
        push_str(&mut cs, "type='signal',interface=");
        push_quoted(&mut cs, self.interface);
        push_str(&mut cs, ",member=");
        push_quoted(&mut cs, self.member);
        let ghost head = cs@;
        match &self.sender {
            Some(s) => {
                push_str(&mut cs, ",sender=");
                push_quoted(&mut cs, s.as_str());
            },
            None => {},
        }
        let ghost mid = cs@;
        match &self.path {
            Some(p) => {
                push_str(&mut cs, ",path=");
                push_quoted(&mut cs, p.as_str());
            },
            None => {},
        }
        assert(cs@ =~= rule_text(self.interface_view(), self.member_view(), self.sender_view(), self.path_view()));
        string_from_chars(cs)
    }
}

/// The kind of a D-Bus message.
#[derive(Clone, Copy, Debug, PartialEq, Eq, Structural)]
pub enum MessageKind {
    MethodCall,
    MethodReturn,
    Error,
    Signal,
}

/// The header fields of a D-Bus message that dispatching reads.
#[derive(Clone, Debug)]
pub struct MessageHeader {
    pub kind: MessageKind,
    pub interface: Option<String>,
    pub member: Option<String>,
    pub path: Option<String>,
    pub sender: Option<String>,
    pub error_name: Option<String>,
}

/// The object path and sender of a matched signal or call.
#[derive(Clone, Debug)]
pub struct Origin {
    pub path: Option<String>,
    pub sender: Option<String>,
}

/// Whether the optional text `o` is present and equal to `s`.
fn is_text(o: &Option<String>, s: &str) -> (r: bool)
    ensures
        r == (o matches Some(t) && t@ == s@),
{
    match o {
        Some(t) => *t == s.to_owned(),
        None => false,
    }
}

/// A message of kind `kind` for `interface`.`member`: where it came from.
/// `None` for other kinds, or a header naming another (or no) interface
/// or member.
pub fn match_member(h: &MessageHeader, kind: MessageKind, interface: &str, member: &str) -> (r: Option<Origin>)
    ensures
        r is Some <==> h.kind == kind && (h.interface matches Some(i) && i@ == interface@) && (h.member matches Some(
            m,
        ) && m@ == member@),
        r matches Some(o) ==> opt_view(o.path) == opt_view(h.path) && opt_view(o.sender) == opt_view(h.sender),
{
    if h.kind != kind || !is_text(&h.interface, interface) || !is_text(&h.member, member) {
        return None;
    }
    let path = match &h.path {
        Some(p) => Some(p.clone()),
        None => None,
    };
    let sender = match &h.sender {
        Some(x) => Some(x.clone()),
        None => None,
    };
    Some(Origin { path, sender })
}

/// A signal `interface`.`member`: where it came from (the arguments are
/// then decoded from the body).
pub fn match_signal(h: &MessageHeader, interface: &str, member: &str) -> (r: Option<Origin>)
    ensures
        r is Some <==> h.kind == MessageKind::Signal && (h.interface matches Some(i) && i@ == interface@) && (
        h.member matches Some(m) && m@ == member@),
        r matches Some(o) ==> opt_view(o.path) == opt_view(h.path) && opt_view(o.sender) == opt_view(h.sender),
{
    match_member(h, MessageKind::Signal, interface, member)
}

/// A method call to `interface`.`member`: where it came from (the
/// arguments are then decoded from the body).
pub fn match_call(h: &MessageHeader, interface: &str, member: &str) -> (r: Option<Origin>)
    ensures
        r is Some <==> h.kind == MessageKind::MethodCall && (h.interface matches Some(i) && i@ == interface@) && (
        h.member matches Some(m) && m@ == member@),
        r matches Some(o) ==> opt_view(o.path) == opt_view(h.path) && opt_view(o.sender) == opt_view(h.sender),
{
    match_member(h, MessageKind::MethodCall, interface, member)
}

/// A reply that reports a failure: the error's name and its text (the
/// body read as a string, when it is one).
#[derive(Clone, Debug)]
pub struct BusError {
    pub name: Option<String>,
    pub text: Option<String>,
}

/// The failure a reply reports, if it is an error reply: its name from the
/// header and `text`, the body read as a string. `None` for a successful
/// reply, whose body is the result.
pub fn reply_error(h: &MessageHeader, text: Option<String>) -> (r: Option<BusError>)
    ensures
        r is Some <==> h.kind == MessageKind::Error,
        r matches Some(e) ==> opt_view(e.name) == opt_view(h.error_name) && opt_view(e.text) == opt_view(text),
{
    if h.kind != MessageKind::Error {
        return None;
    }
    let name = match &h.error_name {
        Some(n) => Some(n.clone()),
        None => None,
    };
    Some(BusError { name, text })
}

/// Calls sent and not yet answered, by serial, each with the context to
/// resume with.
pub struct Pending<C> {
    map: HashMap<u32, C>,
}

impl<C> Pending<C> {
    /// The contexts of the calls in flight, by serial.
    pub closed spec fn in_flight(&self) -> Map<u32, C> {
        self.map@
    }

    /// Finitely many calls are in flight.
    pub proof fn lemma_in_flight_finite(&self)
        ensures
            self.in_flight().dom().finite(),
    {
    }

    /// Nothing in flight.
    pub fn new() -> (p: Self)
        ensures
            p.in_flight() == Map::<u32, C>::empty(),
    {
        Pending { map: HashMap::new() }
    }

    /// Records a call sent with `serial`; serial 0 means the call could not
    /// be sent and is not recorded. Returns the serial.
    pub fn call(&mut self, serial: u32, ctx: C) -> (r: u32)
        ensures
            r == serial,
            final(self).in_flight().dom().finite(),
            serial != 0 ==> final(self).in_flight() == old(self).in_flight().insert(serial, ctx),
            serial == 0 ==> final(self).in_flight() == old(self).in_flight(),
    {
        if serial != 0 {
            self.map.insert(serial, ctx);
        }
        serial
    }

    /// A reply to `serial` arrived: the context of that call, which stops
    /// being in flight; `None` when the serial is not one of these calls.
    pub fn resolve(&mut self, serial: u32) -> (r: Option<C>)
        ensures
            final(self).in_flight() == old(self).in_flight().remove(serial),
            final(self).in_flight().dom().finite(),
            old(self).in_flight().contains_key(serial) ==> r == Some(old(self).in_flight()[serial]),
            !old(self).in_flight().contains_key(serial) ==> r is None,
    {
        self.map.remove(&serial)
    }

    /// No call in flight.
    pub fn is_empty(&self) -> (r: bool)
        ensures
            r == (self.in_flight().len() == 0),
            r == (self.in_flight() == Map::<u32, C>::empty()),
    {
        proof {
            vstd::set_lib::lemma_set_empty_equivalency_len(self.in_flight().dom());
            if self.in_flight().dom() == Set::<u32>::empty() {
                assert(self.in_flight() =~= Map::<u32, C>::empty());
            }
        }
        self.map.is_empty()
    }

    /// Forgets every call in flight (after the bus reconnects).
    pub fn clear(&mut self)
        ensures
            final(self).in_flight() == Map::<u32, C>::empty(),
    {
        self.map.clear();
    }
}

impl<C> Default for Pending<C> {
    fn default() -> (p: Self)
        ensures
            p.in_flight() == Map::<u32, C>::empty(),
    {
        Pending::new()
    }
}

/// A reply to a recorded call hands back that call's context exactly once:
/// after `call(serial, ctx)` with a non-zero serial, `resolve(serial)`
/// gives `ctx`, and a second `resolve(serial)` gives nothing.
pub proof fn lemma_resolve_after_call<C>(calls: Map<u32, C>, serial: u32, ctx: C)
    requires
        serial != 0,
    ensures
        calls.insert(serial, ctx).contains_key(serial),
        calls.insert(serial, ctx)[serial] == ctx,
        !calls.insert(serial, ctx).remove(serial).contains_key(serial),
{
}

} // verus!

//! The questions put to `rpm` about a package file, one after the other.
use vstd::prelude::*;

use crate::text::{same, texts};

verus! {

/// A question about a package file.
#[derive(Clone, Copy, Debug, PartialEq, Eq, Structural)]
pub enum Query {
    Prefixes,
    Conffiles,
    FileList,
    BinaryInfo,
    Description,
    Summary,
    License,
    Copyright,
    Name,
    Version,
    Release,
    Arch,
    ChangelogText,
    PreIn,
    PostIn,
    PreUn,
    PostUn,
}

/// The format that `rpm` prints a field in, or the empty text for a question
/// that is not about a field.
pub open spec fn query_format(q: Query) -> Seq<char> {
    match q {
        Query::Prefixes => "%{PREFIXES}"@,
        Query::Description => "%{DESCRIPTION}"@,
        Query::Summary => "%{SUMMARY}"@,
        Query::License => "%{LICENSE}"@,
        Query::Copyright => "%{COPYRIGHT}"@,
        Query::Name => "%{NAME}"@,
        Query::Version => "%{VERSION}"@,
        Query::Release => "%{RELEASE}"@,
        Query::Arch => "%{ARCH}"@,
        Query::ChangelogText => "%{CHANGELOGTEXT}"@,
        Query::PreIn => "%{PREIN}"@,
        Query::PostIn => "%{POSTIN}"@,
        Query::PreUn => "%{PREUN}"@,
        Query::PostUn => "%{POSTUN}"@,
        Query::Conffiles | Query::FileList | Query::BinaryInfo => ""@,
    }
}

/// The arguments that `rpm` is called with, before the package file.
pub open spec fn query_arguments(q: Query) -> Seq<Seq<char>> {
    match q {
        Query::Conffiles => seq!["-qcp"@],
        Query::FileList => seq!["-qlp"@],
        Query::BinaryInfo => seq!["-qip"@],
        _ => seq!["-qp"@, "--queryformat"@, query_format(q)],
    }
}

impl Query {
    fn format(self) -> (r: &'static str)
        ensures
            r@ == query_format(self),
    {
        match self {
            Query::Prefixes => "%{PREFIXES}",
            Query::Description => "%{DESCRIPTION}",
            Query::Summary => "%{SUMMARY}",
            Query::License => "%{LICENSE}",
            Query::Copyright => "%{COPYRIGHT}",
            Query::Name => "%{NAME}",
            Query::Version => "%{VERSION}",
            Query::Release => "%{RELEASE}",
            Query::Arch => "%{ARCH}",
            Query::ChangelogText => "%{CHANGELOGTEXT}",
            Query::PreIn => "%{PREIN}",
            Query::PostIn => "%{POSTIN}",
            Query::PreUn => "%{PREUN}",
            Query::PostUn => "%{POSTUN}",
            Query::Conffiles | Query::FileList | Query::BinaryInfo => "",
        }
    }

    /// The arguments that `rpm` is called with, before the package file.
    pub fn arguments(self) -> (r: Vec<String>)
        ensures
            texts(r@) == query_arguments(self),
    {
        let mut r: Vec<String> = Vec::new();
        match self {
            Query::Conffiles => r.push("-qcp".to_owned()),
            Query::FileList => r.push("-qlp".to_owned()),
            Query::BinaryInfo => r.push("-qip".to_owned()),
            _ => {
                r.push("-qp".to_owned());
                r.push("--queryformat".to_owned());
                r.push(self.format().to_owned());
            },
        }
        assert(texts(r@) =~= query_arguments(self));
        r
    }
}

/// The questions in the order in which they are put.
pub open spec fn order() -> Seq<Query> {
    seq![
        Query::Prefixes,
        Query::Conffiles,
        Query::FileList,
        Query::BinaryInfo,
        Query::Description,
        Query::Summary,
        Query::License,
        Query::Copyright,
        Query::Name,
        Query::Version,
        Query::Release,
        Query::Arch,
        Query::ChangelogText,
        Query::PreIn,
        Query::PostIn,
        Query::PreUn,
        Query::PostUn,
    ]
}

/// Why a package file could not be read.
#[derive(Clone, Copy, Debug, PartialEq, Eq, Structural)]
pub enum RpmError {
    NoName,
    NoVersion,
    NoRelease,
    /// A question that is still to be put.
    Unasked(Query),
}

impl RpmError {
    pub open spec fn text(self) -> Seq<char> {
        match self {
            RpmError::NoName => "Error querying rpm file: name not found!"@,
            RpmError::NoVersion => "Error querying rpm file: version not found!"@,
            RpmError::NoRelease => "Error querying rpm file: release not found or invalid!"@,
            RpmError::Unasked(_) => "Error querying rpm file: not all fields were read!"@,
        }
    }

    /// The complaint in words.
    pub fn message(self) -> (r: String)
        ensures
            r@ == self.text(),
    {
        (match self {
            RpmError::NoName => "Error querying rpm file: name not found!",
            RpmError::NoVersion => "Error querying rpm file: version not found!",
            RpmError::NoRelease => "Error querying rpm file: release not found or invalid!",
            RpmError::Unasked(_) => "Error querying rpm file: not all fields were read!",
        }).to_owned()
    }
}

/// What `rpm` printed in reply to a question, if it was put. A later reply
/// counts over an earlier one.
pub open spec fn reply(replies: Seq<(Query, Seq<char>)>, q: Query) -> Option<Seq<char>>
    decreases replies.len(),
{
    if replies.len() == 0 {
        None
    } else if replies.last().0 == q {
        Some(replies.last().1)
    } else {
        reply(replies.drop_last(), q)
    }
}

/// The value of a field. A field that a package does not have is printed as
/// `(none)`.
pub open spec fn field(replies: Seq<(Query, Seq<char>)>, q: Query) -> Option<Seq<char>> {
    match reply(replies, q) {
        Some(t) if t != "(none)"@ => Some(t),
        _ => None,
    }
}

/// Whether a question has to be put at all: older packages have a copyright
/// in place of a license, and the architecture is asked for only where the
/// user did not name one.
pub open spec fn wanted(replies: Seq<(Query, Seq<char>)>, named_target: bool, q: Query) -> bool {
    match q {
        Query::Copyright => field(replies, Query::License) is None,
        Query::Arch => !named_target,
        _ => true,
    }
}

/// The complaint about a field that no package can do without.
pub open spec fn complaint(q: Query) -> Option<RpmError> {
    match q {
        Query::Name => Some(RpmError::NoName),
        Query::Version => Some(RpmError::NoVersion),
        Query::Release => Some(RpmError::NoRelease),
        _ => None,
    }
}

/// Whether nothing remains to be done about a question.
pub open spec fn settled(replies: Seq<(Query, Seq<char>)>, named_target: bool, q: Query) -> bool {
    wanted(replies, named_target, q) ==> {
        &&& reply(replies, q) is Some
        &&& complaint(q) is Some ==> field(replies, q) is Some
    }
}

/// What to do next.
#[derive(Clone, Copy, Debug, PartialEq, Eq, Structural)]
pub enum Step {
    /// Put this question.
    Ask(Query),
    /// Give up.
    Fail(RpmError),
    /// Every question has its reply.
    Ready,
}

/// The first question in the order, from the given place on, about which
/// something remains to be done.
pub open spec fn step_from(
    replies: Seq<(Query, Seq<char>)>,
    named_target: bool,
    place: nat,
) -> Step
    decreases order().len() - place,
{
    if place >= order().len() {
        Step::Ready
    } else {
        let q = order()[place as int];
        if settled(replies, named_target, q) {
            step_from(replies, named_target, place + 1)
        } else if reply(replies, q) is None {
            Step::Ask(q)
        } else {
            Step::Fail(complaint(q).unwrap())
        }
    }
}

/// What to do next, given the replies so far: put the first question that is
/// wanted and has no reply, unless a field that is required turned out to be
/// missing before it.
pub open spec fn next_step(replies: Seq<(Query, Seq<char>)>, named_target: bool) -> Step {
    step_from(replies, named_target, 0)
}

/// The place of a question in the order.
pub open spec fn place_of(q: Query) -> nat {
    match q {
        Query::Prefixes => 0,
        Query::Conffiles => 1,
        Query::FileList => 2,
        Query::BinaryInfo => 3,
        Query::Description => 4,
        Query::Summary => 5,
        Query::License => 6,
        Query::Copyright => 7,
        Query::Name => 8,
        Query::Version => 9,
        Query::Release => 10,
        Query::Arch => 11,
        Query::ChangelogText => 12,
        Query::PreIn => 13,
        Query::PostIn => 14,
        Query::PreUn => 15,
        Query::PostUn => 16,
    }
}

/// What `rpm` printed so far.
pub struct Replies {
    entries: Vec<(Query, String)>,
}

spec fn reply_views(entries: Seq<(Query, String)>) -> Seq<(Query, Seq<char>)> {
    Seq::new(entries.len(), |i: int| (entries[i].0, entries[i].1@))
}

impl View for Replies {
    type V = Seq<(Query, Seq<char>)>;

    closed spec fn view(&self) -> Seq<(Query, Seq<char>)> {
        reply_views(self.entries@)
    }
}

impl Replies {
    /// No replies yet.
    pub fn new() -> (r: Self)
        ensures
            r@ == Seq::<(Query, Seq<char>)>::empty(),
    {
        let r = Replies { entries: Vec::new() };
        assert(r@ =~= Seq::<(Query, Seq<char>)>::empty());
        r
    }

    /// Takes down a reply.
    pub fn record(&mut self, q: Query, text: String)
        ensures
            final(self)@ == old(self)@.push((q, text@)),
    {
        self.entries.push((q, text));
        assert(self@ =~= old(self)@.push((q, text@)));
    }

    /// What `rpm` printed in reply to a question.
    pub(crate) fn reply_to(&self, q: Query) -> (r: Option<&String>)
        ensures
            match r {
                Some(t) => reply(self@, q) == Some(t@),
                None => reply(self@, q) is None,
            },
    {
        let mut n: usize = self.entries.len();
        assert(self@.take(n as int) =~= self@);
        while n > 0
            invariant
                n <= self.entries.len(),
                reply(self@, q) == reply(self@.take(n as int), q),
            decreases n,
        {
            let ghost seen = self@.take(n as int);
            assert(seen.last() == self@[n - 1]);
            assert(seen.drop_last() =~= self@.take(n - 1));
            if self.entries[n - 1].0 == q {
                return Some(&self.entries[n - 1].1);
            }
            n = n - 1;
        }
        None
    }

    /// The value of a field.
    pub(crate) fn field_of(&self, q: Query) -> (r: Option<String>)
        ensures
            crate::text::opt_text(r) == field(self@, q),
    {
        match self.reply_to(q) {
            Some(t) => {
                if same(t.as_str(), "(none)") {
                    None
                } else {
                    Some(t.clone())
                }
            },
            None => None,
        }
    }

    /// What to do next.
    pub fn next_step(&self, named_target: bool) -> (r: Step)
        ensures
            r == next_step(self@, named_target),
    {
        let all: [Query; 17] = [
            Query::Prefixes,
            Query::Conffiles,
            Query::FileList,
            Query::BinaryInfo,
            Query::Description,
            Query::Summary,
            Query::License,
            Query::Copyright,
            Query::Name,
            Query::Version,
            Query::Release,
            Query::Arch,
            Query::ChangelogText,
            Query::PreIn,
            Query::PostIn,
            Query::PreUn,
            Query::PostUn,
        ];
        assert(all@ =~= order());
        let mut place: usize = 0;
        while place < 17
            invariant
                place <= 17,
                all@ == order(),
                next_step(self@, named_target) == step_from(self@, named_target, place as nat),
            decreases 17 - place,
        {
            let q = all[place];
            let wanted = match q {
                Query::Copyright => self.field_of(Query::License).is_none(),
                Query::Arch => !named_target,
                _ => true,
            };
            if wanted {
                if self.reply_to(q).is_none() {
                    return Step::Ask(q);
                }
                let complaint = match q {
                    Query::Name => Some(RpmError::NoName),
                    Query::Version => Some(RpmError::NoVersion),
                    Query::Release => Some(RpmError::NoRelease),
                    _ => None,
                };
                if let Some(e) = complaint {
                    if self.field_of(q).is_none() {
                        return Step::Fail(e);
                    }
                }
            }
            place = place + 1;
        }
        Step::Ready
    }
}

/// A step that is reached from one place on stands at that place or later.
pub(crate) proof fn lemma_step_place(replies: Seq<(Query, Seq<char>)>, named_target: bool, place: nat)
    requires
        place <= order().len(),
    ensures
        match step_from(replies, named_target, place) {
            Step::Ask(q) => place <= place_of(q) && reply(replies, q) is None && wanted(
                replies,
                named_target,
                q,
            ) && forall|i: int|
                place <= i < place_of(q) ==> settled(
                    replies,
                    named_target,
                    #[trigger] order()[i],
                ),
            Step::Fail(_) => true,
            Step::Ready => forall|i: int|
                place <= i < order().len() ==> settled(
                    replies,
                    named_target,
                    #[trigger] order()[i],
                ),
        },
    decreases order().len() - place,
{
    if place < order().len() && settled(replies, named_target, order()[place as int]) {
        lemma_step_place(replies, named_target, place + 1);
    }
}

/// A question that was put and answered is never put again: whatever the
/// reply, the next question, if there is one, comes later in the order. So
/// there are at most as many questions as the order has.
pub proof fn lemma_questions_advance(
    replies: Seq<(Query, Seq<char>)>,
    named_target: bool,
    q: Query,
    text: Seq<char>,
)
    requires
        next_step(replies, named_target) == Step::Ask(q),
    ensures
        match next_step(replies.push((q, text)), named_target) {
            Step::Ask(p) => place_of(q) < place_of(p) < order().len(),
            _ => true,
        },
{
    let after = replies.push((q, text));
    lemma_step_place(replies, named_target, 0);
    lemma_step_place(after, named_target, 0);
    assert(after.drop_last() =~= replies);
    if let Step::Ask(p) = next_step(after, named_target) {
        if place_of(p) < place_of(q) {
            assert(order()[place_of(p) as int] == p);
            assert(settled(replies, named_target, p));
        }
    }
}

/// Once nothing remains to be asked, every question that is wanted has its
/// reply, and the fields that no package can do without are there.
pub proof fn lemma_ready(replies: Seq<(Query, Seq<char>)>, named_target: bool)
    requires
        next_step(replies, named_target) == Step::Ready,
    ensures
        forall|q: Query| wanted(replies, named_target, q) ==> #[trigger] reply(replies, q) is Some,
        field(replies, Query::Name) is Some,
        field(replies, Query::Version) is Some,
        field(replies, Query::Release) is Some,
{
    lemma_step_place(replies, named_target, 0);
    assert forall|q: Query| wanted(replies, named_target, q) implies #[trigger] reply(
        replies,
        q,
    ) is Some by {
        assert(order()[place_of(q) as int] == q);
    }
    assert(order()[8] == Query::Name);
    assert(order()[9] == Query::Version);
    assert(order()[10] == Query::Release);
}

} // verus!

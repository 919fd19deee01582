//! The course of an outgoing transfer.
//!
//! A file goes out in steps: the offer, the wait for an answer, then the file,
//! piece by piece, for as long as we are in the room. Each step asks for one
//! piece of outside work and goes on by what became of it, so that whoever
//! performs the work decides nothing.

use vstd::prelude::*;

use crate::error::{Error, ErrorView};
use crate::events::{Action, ActionView, Decision, DecisionView, EventView};
use crate::files::{
    advanced, assembled, seq_after, upload_progress, uploaded, uploads_add_up, Upload, UploadEnd,
    UploadEndView, UploadView,
};
use crate::protocol::{chunk_bytes, hex_text, Control, ControlView};
use crate::views::each;

verus! {

/// What an outgoing transfer is at.
#[derive(Clone, Copy, Debug, PartialEq, Eq)]
pub enum Stage {
    /// The offer is being sent.
    Offering,
    /// The recipient has not answered yet.
    Waiting,
    /// The file is being opened.
    Opening,
    /// It is being looked whether we are still in the room.
    Looking,
    /// The next piece is being read.
    Reading,
    /// A chunk with this many bytes of the file is being sent.
    Passing(usize),
    /// Nothing is left to do.
    Over,
}

/// What became of the work that was asked for.
pub enum Happened {
    /// The link took the offer or the chunk, or did not.
    Sent(Result<(), Error>),
    /// The recipient answered, or did not in time.
    Answered(Option<Decision>),
    /// The file was opened, or could not be.
    Opened(Result<(), String>),
    /// Whether we are still in the room.
    InRoom(bool),
    /// A piece was read, an empty one at the end of the file, or could not be.
    Read(Result<Vec<u8>, String>),
}

#[verifier::ext_equal]
pub enum HappenedView {
    Sent(Result<(), ErrorView>),
    Answered(Option<DecisionView>),
    Opened(Result<(), Seq<char>>),
    InRoom(bool),
    Read(Result<Seq<u8>, Seq<char>>),
}

impl View for Happened {
    type V = HappenedView;

    open spec fn view(&self) -> HappenedView {
        match self {
            Happened::Sent(Ok(())) => HappenedView::Sent(Ok(())),
            Happened::Sent(Err(e)) => HappenedView::Sent(Err(e@)),
            Happened::Answered(Some(d)) => HappenedView::Answered(Some(d@)),
            Happened::Answered(None) => HappenedView::Answered(None),
            Happened::Opened(Ok(())) => HappenedView::Opened(Ok(())),
            Happened::Opened(Err(e)) => HappenedView::Opened(Err(e@)),
            Happened::InRoom(here) => HappenedView::InRoom(*here),
            Happened::Read(Ok(data)) => HappenedView::Read(Ok(data@)),
            Happened::Read(Err(e)) => HappenedView::Read(Err(e@)),
        }
    }
}

/// The outside work that is wanted next.
pub enum Work {
    /// Send the offer.
    Offer(Control),
    /// Wait for the answer.
    Await,
    /// Open the file.
    Open,
    /// See whether we are still in the room.
    Look,
    /// Read a piece of the file.
    Read,
    /// Send a chunk.
    Pass(Vec<u8>),
    /// Report how the transfer ended.
    Finish(UploadEnd),
    /// We left the room: nothing is reported.
    Leave,
}

#[verifier::ext_equal]
pub enum WorkView {
    Offer(ControlView),
    Await,
    Open,
    Look,
    Read,
    Pass(Seq<u8>),
    Finish(UploadEndView),
    Leave,
}

impl View for Work {
    type V = WorkView;

    open spec fn view(&self) -> WorkView {
        match self {
            Work::Offer(message) => WorkView::Offer(message@),
            Work::Await => WorkView::Await,
            Work::Open => WorkView::Open,
            Work::Look => WorkView::Look,
            Work::Read => WorkView::Read,
            Work::Pass(chunk) => WorkView::Pass(chunk@),
            Work::Finish(how) => WorkView::Finish(how@),
            Work::Leave => WorkView::Leave,
        }
    }
}

/// An outgoing transfer and how far it has come.
pub struct Course {
    pub up: Upload,
    pub stage: Stage,
}

#[verifier::ext_equal]
pub struct CourseView {
    pub up: UploadView,
    pub stage: Stage,
}

impl View for Course {
    type V = CourseView;

    open spec fn view(&self) -> CourseView {
        CourseView { up: self.up@, stage: self.stage }
    }
}

/// What a step leads to.
#[verifier::ext_equal]
pub struct CourseStep {
    pub course: CourseView,
    pub actions: Seq<ActionView>,
    pub work: WorkView,
}

/// Whether this is news of the work that was asked for last.
pub open spec fn is_news(c: CourseView, news: HappenedView) -> bool {
    match c.stage {
        Stage::Offering => news is Sent,
        Stage::Waiting => news is Answered,
        Stage::Opening => news is Opened,
        Stage::Looking => news is InRoom,
        Stage::Reading => news is Read,
        Stage::Passing(n) => match news {
            HappenedView::Sent(Ok(())) => c.up.sent + n <= u64::MAX,
            HappenedView::Sent(Err(_)) => true,
            _ => false,
        },
        Stage::Over => false,
    }
}

/// Go on to the next stage without a word.
pub open spec fn goes_on(up: UploadView, stage: Stage, work: WorkView) -> CourseStep {
    CourseStep { course: CourseView { up, stage }, actions: Seq::empty(), work }
}

/// Come to an end.
pub open spec fn ends(up: UploadView, how: UploadEndView) -> CourseStep {
    goes_on(up, Stage::Over, WorkView::Finish(how))
}

/// The message that offers a file.
pub open spec fn offer_of(up: UploadView) -> ControlView {
    ControlView::FileOffer {
        transfer: hex_text(up.id),
        name: up.name,
        size: up.size,
        sha256: up.sha,
    }
}

/// The step that follows this news.
pub open spec fn step(c: CourseView, news: HappenedView, now: u64) -> CourseStep {
    let up = c.up;
    match (c.stage, news) {
        (Stage::Offering, HappenedView::Sent(Ok(()))) => CourseStep {
            actions: seq![
                ActionView::Emit(
                    EventView::Status(
                        "Offered "@ + up.name + " to "@ + up.peer.name + " - waiting for a reply"@,
                    ),
                ),
            ],
            ..goes_on(up, Stage::Waiting, WorkView::Await)
        },
        (Stage::Offering, HappenedView::Sent(Err(e))) => ends(up, UploadEndView::OfferFailed(e)),
        (Stage::Waiting, HappenedView::Answered(Some(DecisionView::Accept))) => goes_on(
            up,
            Stage::Opening,
            WorkView::Open,
        ),
        (Stage::Waiting, HappenedView::Answered(Some(DecisionView::Decline(reason)))) => ends(
            up,
            UploadEndView::Declined(reason),
        ),
        (Stage::Waiting, HappenedView::Answered(None)) => ends(up, UploadEndView::TimedOut),
        (Stage::Opening, HappenedView::Opened(Ok(()))) => goes_on(
            up,
            Stage::Looking,
            WorkView::Look,
        ),
        (Stage::Opening, HappenedView::Opened(Err(e))) => ends(up, UploadEndView::Unreadable(e)),
        (Stage::Looking, HappenedView::InRoom(true)) => goes_on(
            up,
            Stage::Reading,
            WorkView::Read,
        ),
        (Stage::Reading, HappenedView::Read(Ok(data))) => if data.len() == 0 {
            ends(up, UploadEndView::Sent)
        } else {
            goes_on(
                up,
                Stage::Passing(data.len() as usize),
                WorkView::Pass(chunk_bytes(up.id, up.seq, data)),
            )
        },
        (Stage::Reading, HappenedView::Read(Err(e))) => ends(up, UploadEndView::ReadFailed(e)),
        (Stage::Passing(n), HappenedView::Sent(Ok(()))) => CourseStep {
            actions: upload_progress(up, n as nat, now),
            ..goes_on(advanced(up, n as nat, now), Stage::Looking, WorkView::Look)
        },
        (Stage::Passing(_), HappenedView::Sent(Err(e))) => ends(up, UploadEndView::LinkFailed(e)),
        _ => goes_on(up, Stage::Over, WorkView::Leave),
    }
}

impl Course {
    /// Set out: the offer goes first.
    pub fn start(up: Upload) -> (r: (Course, Work))
        ensures
            r.0@ == (CourseView { up: up@, stage: Stage::Offering }),
            r.1@ == WorkView::Offer(offer_of(up@)),
    {
        let work = Work::Offer(up.offer());
        (Course { up, stage: Stage::Offering }, work)
    }

    /// Whether `n` more bytes can be accounted for.
    pub fn can_count(&self, n: usize) -> (r: bool)
        ensures
            r == (self@.up.sent + n <= u64::MAX),
    {
        self.up.sent <= u64::MAX - n as u64
    }

    fn end(&mut self, how: UploadEnd) -> (r: Work)
        ensures
            final(self)@ == ends(old(self)@.up, how@).course,
            r@ == ends(old(self)@.up, how@).work,
    {
        self.stage = Stage::Over;
        Work::Finish(how)
    }

    /// Go on by what became of the work that was asked for last.
    pub fn next(&mut self, news: Happened, now: u64) -> (r: (Vec<Action>, Work))
        requires
            is_news(old(self)@, news@),
        ensures
            final(self)@ == step(old(self)@, news@, now).course,
            each(r.0@) == step(old(self)@, news@, now).actions,
            r.1@ == step(old(self)@, news@, now).work,
    {
        let ghost to = step(self@, news@, now);
        let mut said: Vec<Action> = Vec::new();
        let work = match (self.stage, news) {
            (Stage::Offering, Happened::Sent(Ok(()))) => {
                said.push(Action::Emit(self.up.offered()));
                self.stage = Stage::Waiting;
                Work::Await
            },
            (Stage::Offering, Happened::Sent(Err(e))) => self.end(UploadEnd::OfferFailed(e)),
            (Stage::Waiting, Happened::Answered(answer)) => match self.up.answered(answer) {
                None => {
                    self.stage = Stage::Opening;
                    Work::Open
                },
                Some(how) => self.end(how),
            },
            (Stage::Opening, Happened::Opened(Ok(()))) => {
                self.stage = Stage::Looking;
                Work::Look
            },
            (Stage::Opening, Happened::Opened(Err(e))) => self.end(UploadEnd::Unreadable(e)),
            (Stage::Looking, Happened::InRoom(true)) => {
                self.stage = Stage::Reading;
                Work::Read
            },
            (Stage::Reading, Happened::Read(Ok(data))) => if data.len() == 0 {
                self.end(UploadEnd::Sent)
            } else {
                self.stage = Stage::Passing(data.len());
                Work::Pass(self.up.chunk(data.as_slice()))
            },
            (Stage::Reading, Happened::Read(Err(e))) => self.end(UploadEnd::ReadFailed(e)),
            (Stage::Passing(n), Happened::Sent(Ok(()))) => {
                said = self.up.chunk_sent(n, now);
                self.stage = Stage::Looking;
                Work::Look
            },
            (Stage::Passing(_), Happened::Sent(Err(e))) => self.end(UploadEnd::LinkFailed(e)),
            _ => {
                self.stage = Stage::Over;
                Work::Leave
            },
        };
        assert(each(said@) =~= to.actions);
        (said, work)
    }
}

// --- laws ----------------------------------------------------------------------------

/// The course after all this news, each at its time.
pub open spec fn ran(c: CourseView, news: Seq<HappenedView>, times: Seq<u64>) -> CourseView
    decreases news.len(),
{
    if news.len() == 0 {
        c
    } else {
        step(ran(c, news.drop_last(), times.drop_last()), news.last(), times.last()).course
    }
}

proof fn unaccepted_stays_closed(c: CourseView, news: Seq<HappenedView>, times: Seq<u64>)
    requires
        c.stage == Stage::Offering,
        !news.contains(HappenedView::Answered(Some(DecisionView::Accept))),
    ensures
        ({
            let stage = ran(c, news, times).stage;
            stage == Stage::Offering || stage == Stage::Waiting || stage == Stage::Over
        }),
    decreases news.len(),
{
    if news.len() > 0 {
        assert forall|i: int| 0 <= i < news.len() - 1 implies news.drop_last()[i]
            != HappenedView::Answered(Some(DecisionView::Accept)) by {
            assert(news.contains(news[i]));
        }
        unaccepted_stays_closed(c, news.drop_last(), times.drop_last());
        assert(news.contains(news.last()));
    }
}

/// Not a byte of a file leaves before the recipient has accepted it: whatever
/// happens after the offer, without an acceptance the file is not opened, not
/// read, and no chunk of it is sent.
pub proof fn nothing_is_sent_unaccepted(
    up: UploadView,
    news: Seq<HappenedView>,
    times: Seq<u64>,
    now: u64,
)
    requires
        news.len() > 0,
        times.len() == news.len(),
        !news.contains(HappenedView::Answered(Some(DecisionView::Accept))),
    ensures
        ({
            let c = CourseView { up, stage: Stage::Offering };
            let before = ran(c, news.drop_last(), times.drop_last());
            let work = step(before, news.last(), now).work;
            work !is Open && work !is Read && work !is Pass
        }),
{
    let c = CourseView { up, stage: Stage::Offering };
    assert forall|i: int| 0 <= i < news.len() - 1 implies news.drop_last()[i]
        != HappenedView::Answered(Some(DecisionView::Accept)) by {
        assert(news.contains(news[i]));
    }
    unaccepted_stays_closed(c, news.drop_last(), times.drop_last());
    assert(news.contains(news.last()));
}

/// The step by which the next piece becomes a chunk, in the room.
pub open spec fn cut(c: CourseView, piece: Seq<u8>, now: u64) -> CourseStep {
    step(step(c, HappenedView::InRoom(true), now).course, HappenedView::Read(Ok(piece)), now)
}

/// A course after these pieces were read and sent, each at its time.
pub open spec fn passed(c: CourseView, pieces: Seq<Seq<u8>>, times: Seq<u64>) -> CourseView
    decreases pieces.len(),
{
    if pieces.len() == 0 {
        c
    } else {
        let before = passed(c, pieces.drop_last(), times.drop_last());
        let chunk = cut(before, pieces.last(), times.last());
        step(chunk.course, HappenedView::Sent(Ok(())), times.last()).course
    }
}

/// Once accepted, a file goes out whole and in order: whatever pieces it is
/// read in, the next work is each time a chunk with exactly the next piece,
/// under the next sequence number; and at the end of the file the transfer is
/// reported as sent.
pub proof fn a_file_goes_out_whole(up: UploadView, pieces: Seq<Seq<u8>>, times: Seq<u64>, now: u64)
    requires
        up.sent == 0,
        up.seq == 0,
        times.len() == pieces.len(),
        forall|i: int| 0 <= i < pieces.len() ==> 0 < (#[trigger] pieces[i]).len() <= usize::MAX,
        assembled(pieces).len() <= u64::MAX,
    ensures
        ({
            let c = CourseView { up, stage: Stage::Looking };
            let all = passed(c, pieces, times);
            &&& forall|i: int|
                0 <= i < pieces.len() ==> cut(
                    passed(c, pieces.take(i), times.take(i)),
                    #[trigger] pieces[i],
                    times[i],
                ).work == WorkView::Pass(chunk_bytes(up.id, seq_after(i as nat), pieces[i]))
            &&& all == (CourseView { up: uploaded(up, pieces, times), stage: Stage::Looking })
            &&& all.up.sent == assembled(pieces).len()
            &&& cut(all, Seq::empty(), now).work == WorkView::Finish(UploadEndView::Sent)
        }),
    decreases pieces.len(),
{
    let c = CourseView { up, stage: Stage::Looking };
    uploads_add_up(up, pieces, times);
    if pieces.len() > 0 {
        let p = pieces.drop_last();
        let q = times.drop_last();
        assert(assembled(pieces) == assembled(p) + pieces.last());
        a_file_goes_out_whole(up, p, q, now);
        uploads_add_up(up, p, q);
        assert forall|i: int| 0 <= i < pieces.len() implies cut(
            passed(c, pieces.take(i), times.take(i)),
            #[trigger] pieces[i],
            times[i],
        ).work == WorkView::Pass(chunk_bytes(up.id, seq_after(i as nat), pieces[i])) by {
            if i < p.len() {
                assert(p[i] == pieces[i]);
                assert(p.take(i) =~= pieces.take(i));
                assert(q.take(i) =~= times.take(i));
            } else {
                assert(pieces.take(i) =~= p);
                assert(times.take(i) =~= q);
            }
        }
    }
}

/// A transfer ends once: with its end reported, or in silence where we left the
/// room; and no news follows.
pub proof fn a_course_ends_once(c: CourseView, news: HappenedView, more: HappenedView, now: u64)
    requires
        is_news(c, news),
    ensures
        ({
            let to = step(c, news, now);
            &&& to.course.stage == Stage::Over <==> to.work is Finish || to.work is Leave
            &&& to.work is Leave <==> news == HappenedView::InRoom(false)
            &&& to.course.stage == Stage::Over ==> !is_news(to.course, more)
        }),
{
}

} // verus!

//! Polls and votes: a poll carries a candidate list and an inclusive
//! score range, and accepts exactly the ballots that give every candidate
//! a score inside that range.

use vstd::prelude::*;

verus! {

/// One ballot: a score for each of the poll's candidates, in candidate
/// order.
pub struct Vote(pub Vec<u8>);

impl View for Vote {
    type V = Seq<u8>;

    open spec fn view(&self) -> Seq<u8> {
        self.0@
    }
}

impl DeepView for Vote {
    type V = Seq<u8>;

    open spec fn deep_view(&self) -> Seq<u8> {
        self.0@
    }
}

impl Clone for Vote {
    /// The copy carries the same scores.
    fn clone(&self) -> (r: Self)
        ensures
            r@ == self@,
    {
        let c = self.0.clone();
        proof {
            assert(c@ =~= self.0@);
        }
        Vote(c)
    }
}

/// What a poll is made of, besides its ballots.
pub struct PollMetadata {
    pub id: usize,
    pub candidates: Vec<String>,
    pub min_score: u8,
    pub max_score: u8,
}

/// The mathematical shape of a poll's metadata.
pub ghost struct PollMetadataV {
    pub id: usize,
    pub candidates: Seq<Seq<char>>,
    pub min_score: u8,
    pub max_score: u8,
}

impl PollMetadataV {
    /// The ballots this poll accepts: one score per candidate, each inside
    /// the inclusive score range.
    pub open spec fn allows(self, scores: Seq<u8>) -> bool {
        &&& scores.len() == self.candidates.len()
        &&& forall|i: int|
            0 <= i < scores.len() ==> self.min_score <= #[trigger] scores[i] <= self.max_score
    }
}

impl View for PollMetadata {
    type V = PollMetadataV;

    open spec fn view(&self) -> PollMetadataV {
        PollMetadataV {
            id: self.id,
            candidates: self.candidates.deep_view(),
            min_score: self.min_score,
            max_score: self.max_score,
        }
    }
}

impl Clone for PollMetadata {
    /// The copy describes the same poll.
    fn clone(&self) -> (r: Self)
        ensures
            r@ == self@,
    {
        let c = self.candidates.clone();
        proof {
            assert forall|i: int| 0 <= i < c@.len() implies c@[i]@ == self.candidates@[i]@ by {
                assert(cloned::<String>(self.candidates@[i], c@[i]));
            }
            assert(c.deep_view() =~= self.candidates.deep_view());
        }
        PollMetadata {
            id: self.id,
            candidates: c,
            min_score: self.min_score,
            max_score: self.max_score,
        }
    }
}

/// What a caller hands in to open a new poll; the id is the state's to
/// give.
pub struct PollCreationRequest {
    pub candidates: Vec<String>,
    pub min_score: u8,
    pub max_score: u8,
}

/// A poll: its metadata and the ballots accepted so far.
pub struct Poll {
    pub metadata: PollMetadata,
    votes: Vec<Vote>,
}

/// The mathematical shape of a poll.
pub ghost struct PollV {
    pub metadata: PollMetadataV,
    pub votes: Seq<Seq<u8>>,
}

impl PollV {
    /// Every stored ballot is one the poll accepts.
    pub open spec fn wf(self) -> bool {
        forall|i: int| 0 <= i < self.votes.len() ==> self.metadata.allows(#[trigger] self.votes[i])
    }
}

impl View for Poll {
    type V = PollV;

    closed spec fn view(&self) -> PollV {
        PollV { metadata: self.metadata@, votes: self.votes.deep_view() }
    }
}

/// Why a ballot was turned away.
#[derive(Clone, Copy, PartialEq, Eq, Structural, Debug)]
pub enum VotingError {
    OutsideScoreRangeError,
    InvalidVoteLengthError,
}

impl Poll {
    /// The poll's metadata, as the view carries it.
    pub fn metadata(&self) -> (r: &PollMetadata)
        ensures
            r@ == self@.metadata,
    {
        &self.metadata
    }

    /// Opens a poll with no ballots yet.
    pub fn new(id: usize, candidates: Vec<String>, min_score: u8, max_score: u8) -> (r: Self)
        ensures
            r@.metadata.id == id,
            r@.metadata.candidates == candidates.deep_view(),
            r@.metadata.min_score == min_score,
            r@.metadata.max_score == max_score,
            r@.votes == Seq::<Seq<u8>>::empty(),
            r@.wf(),
    {
        let r = Poll {
            metadata: PollMetadata { id, candidates, min_score, max_score },
            votes: Vec::new(),
        };
        proof {
            assert(r@.votes =~= Seq::<Seq<u8>>::empty());
        }
        r
    }

    /// A copy of the ballots accepted so far, in the order they came.
    pub fn list_votes(&self) -> (r: Vec<Vote>)
        ensures
            r.deep_view() == self@.votes,
    {
        let n = self.votes.len();
        let mut r: Vec<Vote> = Vec::new();
        let mut i: usize = 0;
        while i < n
            invariant
                n == self.votes@.len(),
                i <= n,
                r.deep_view() =~= self@.votes.subrange(0, i as int),
            decreases n - i,
        {
            let v = self.votes[i].clone();
            let ghost prev = r.deep_view();
            let ghost r0 = r@;
            let ghost dv = v.deep_view();
            proof {
                assert(v@ == self.votes@[i as int]@);
                assert(dv == self@.votes[i as int]);
                assert(prev.len() == i as int);
                assert(r0.len() == i as int);
            }
            r.push(v);
            proof {
                let r1 = r@;
                assert(r1.len() == r0.len() + 1);
                assert forall|k: int| 0 <= k < r1.len() implies r.deep_view()[k]
                    == self@.votes.subrange(0, (i + 1) as int)[k] by {
                    assert(r.deep_view()[k] == r1[k].deep_view());
                    if k < i {
                        assert(r1[k] == r0[k]);
                        assert(r0[k].deep_view() == prev[k]);
                    } else {
                        assert(r1[k].deep_view() == dv);
                    }
                }
                assert(r.deep_view() =~= self@.votes.subrange(0, (i + 1) as int));
            }
            i = i + 1;
        }
        proof {
            assert(r.deep_view() =~= self@.votes);
        }
        r
    }

    /// Accepts the ballot exactly when it scores every candidate inside
    /// the poll's range; says which rule it broke otherwise.
    pub fn add_vote(&mut self, vote: Vote) -> (r: Result<(), VotingError>)
        ensures
            match r {
                Ok(_) => old(self)@.metadata.allows(vote@) && final(self)@.metadata == old(
                    self,
                )@.metadata && final(self)@.votes == old(self)@.votes.push(vote@),
                Err(VotingError::InvalidVoteLengthError) => *final(self) == *old(self)
                    && vote@.len() != old(self)@.metadata.candidates.len(),
                Err(VotingError::OutsideScoreRangeError) => *final(self) == *old(self)
                    && vote@.len() == old(self)@.metadata.candidates.len() && !old(
                    self,
                )@.metadata.allows(vote@),
            },
            old(self)@.wf() ==> final(self)@.wf(),
    {
        if vote.0.len() != self.metadata.candidates.len() {
            return Err(VotingError::InvalidVoteLengthError);
        }
        let n = vote.0.len();
        let mut i: usize = 0;
        while i < n
            invariant
                n == vote@.len(),
                i <= n,
                n == self.metadata.candidates@.len(),
                self == old(self),
                forall|j: int|
                    0 <= j < i ==> self.metadata.min_score <= #[trigger] vote@[j]
                        <= self.metadata.max_score,
            decreases n - i,
        {
            let score = vote.0[i];
            if score < self.metadata.min_score || score > self.metadata.max_score {
                return Err(VotingError::OutsideScoreRangeError);
            }
            i = i + 1;
        }
        proof {
            assert(self.metadata.candidates@.len() == self@.metadata.candidates.len());
            assert(self@.metadata.allows(vote@));
        }
        let ghost pre = self@;
        let ghost scores = vote@;
        self.votes.push(vote);
        proof {
            assert(self@.votes =~= pre.votes.push(scores));
            if pre.wf() {
                assert forall|k: int| 0 <= k < self@.votes.len() implies self@.metadata.allows(
                    #[trigger] self@.votes[k],
                ) by {
                    if k < pre.votes.len() {
                        assert(pre.metadata.allows(pre.votes[k]));
                    }
                }
            }
        }
        Ok(())
    }
}

} // verus!

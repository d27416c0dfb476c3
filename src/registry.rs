//! The directory of invite codes: which codes belong to live rooms, and which
//! were used recently and are held back before they may be issued again.

use vstd::prelude::*;

use crate::text::char_from_u32;
use crate::model::{is_invite_code, is_invite_code_char, InviteCode, INVITE_CODE_CHAR_COUNT, POSSIBLE_INVITE_CODE_COMBINATIONS};

verus! {

/// How many retired codes are held back at most before the oldest tenth of
/// them is released.
pub const PREVIOUS_INVITE_CODES_LIMIT: usize = POSSIBLE_INVITE_CODE_COMBINATIONS / 1000;

/// How many random codes `create` tries before it gives up.
pub const INVITE_CODE_ATTEMPTS: usize = 100;

/// Relies on rand's `SliceRandom::choose_multiple` with the thread-local
/// generator: `amount` elements of the slice (all of them if it has fewer),
/// taken at distinct positions.
#[verifier::external_body]
fn choose_multiple_chars(alphabet: &[char], amount: usize) -> (r: Vec<char>)
    ensures
        r@.len() == if amount < alphabet@.len() {
            amount as int
        } else {
            alphabet@.len() as int
        },
        forall|i: int| 0 <= i < r@.len() ==> alphabet@.contains(#[trigger] r@[i]),
        alphabet@.no_duplicates() ==> r@.no_duplicates(),
{
    rand::seq::SliceRandom::choose_multiple(alphabet, &mut rand::thread_rng(), amount).cloned().collect()
}

/// The letters `A` to `Z`.
fn invite_code_alphabet() -> (r: Vec<char>)
    ensures
        r@.len() == 26,
        r@.no_duplicates(),
        forall|i: int| 0 <= i < r@.len() ==> is_invite_code_char(#[trigger] r@[i]),
{
    let mut r: Vec<char> = Vec::new();
    let mut i: u32 = 0;
    while i < 26
        invariant
            i <= 26,
            r@.len() == i,
            forall|k: int| 0 <= k < i ==> (#[trigger] r@[k]) as u32 == 0x41 + k,
            forall|k: int| 0 <= k < i ==> is_invite_code_char(#[trigger] r@[k]),
        decreases 26 - i,
    {
        r.push(char_from_u32(0x41 + i));
        i = i + 1;
    }
    assert(r@.no_duplicates()) by {
        assert forall|a: int, b: int| 0 <= a < r@.len() && 0 <= b < r@.len() && a != b implies r@[a] != r@[b] by {
            assert((r@[a]) as u32 == 0x41 + a);
            assert((r@[b]) as u32 == 0x41 + b);
        }
    }
    r
}

impl InviteCode {
    /// A random code of four distinct letters.
    pub fn generate() -> (r: InviteCode)
        ensures
            r.wf(),
            r@.no_duplicates(),
    {
        let alphabet = invite_code_alphabet();
        let letters = choose_multiple_chars(alphabet.as_slice(), INVITE_CODE_CHAR_COUNT);
        assert forall|i: int| 0 <= i < letters@.len() implies is_invite_code_char(#[trigger] letters@[i]) by {
            let k = choose|k: int| 0 <= k < alphabet@.len() && alphabet@[k] == letters@[i];
        }
        InviteCode::from_chars(&letters)
    }
}

pub open spec fn codes_view(s: Seq<InviteCode>) -> Seq<Seq<char>> {
    s.map_values(|c: InviteCode| c@)
}

/// The history after `code` was retired: it is appended, and once the
/// history is longer than the limit its oldest tenth is dropped.
pub open spec fn retired(history: Seq<Seq<char>>, code: Seq<char>) -> Seq<Seq<char>> {
    let h = history.push(code);
    if h.len() > PREVIOUS_INVITE_CODES_LIMIT {
        h.subrange((h.len() / 10) as int, h.len() as int)
    } else {
        h
    }
}

/// Why no room could be created.
#[derive(Clone, Copy, PartialEq, Eq, Structural, Debug)]
pub enum CreateLobbyError {
    /// No free invite code was found within the attempts.
    NoFreeInviteCode,
}

/// The invite codes of the live rooms and the recently retired ones.
#[derive(Clone, Debug)]
pub struct InviteCodes {
    live: Vec<InviteCode>,
    previous_invite_codes: Vec<InviteCode>,
}

impl InviteCodes {
    pub closed spec fn live_view(&self) -> Seq<Seq<char>> {
        codes_view(self.live@)
    }

    pub closed spec fn previous_view(&self) -> Seq<Seq<char>> {
        codes_view(self.previous_invite_codes@)
    }

    /// No two live rooms share a code, and every live code is well formed.
    pub open spec fn wf(&self) -> bool {
        &&& self.live_view().no_duplicates()
        &&& forall|i: int| 0 <= i < self.live_view().len() ==> is_invite_code(#[trigger] self.live_view()[i])
    }

    pub fn new() -> (r: InviteCodes)
        ensures
            r.wf(),
            r.live_view() == Seq::<Seq<char>>::empty(),
            r.previous_view() == Seq::<Seq<char>>::empty(),
    {
        let r = InviteCodes { live: Vec::new(), previous_invite_codes: Vec::new() };
        assert(r.live_view() =~= Seq::<Seq<char>>::empty());
        assert(r.previous_view() =~= Seq::<Seq<char>>::empty());
        r
    }

    fn position_in(codes: &Vec<InviteCode>, code: &InviteCode) -> (r: Option<usize>)
        ensures
            match r {
                Some(i) => i < codes@.len() && codes@[i as int]@ == code@ && codes_view(codes@).contains(code@),
                None => !codes_view(codes@).contains(code@),
            },
    {
        let mut i: usize = 0;
        while i < codes.len()
            invariant
                i <= codes.len(),
                forall|k: int| 0 <= k < i ==> (#[trigger] codes@[k])@ != code@,
            decreases codes.len() - i,
        {
            if codes[i] == *code {
                assert(codes_view(codes@)[i as int] == code@);
                return Some(i);
            }
            i = i + 1;
        }
        proof {
            if codes_view(codes@).contains(code@) {
                let k = choose|k: int| 0 <= k < codes_view(codes@).len() && codes_view(codes@)[k] == code@;
                assert(codes@[k]@ == code@);
            }
        }
        None
    }

    /// Whether `code` belongs to a live room.
    pub fn is_live(&self, code: &InviteCode) -> (r: bool)
        ensures
            r == self.live_view().contains(code@),
    {
        InviteCodes::position_in(&self.live, code).is_some()
    }

    /// Takes `candidate` for a new room if it is neither live nor recently
    /// retired.
    pub fn try_reserve(&mut self, candidate: InviteCode) -> (r: bool)
        requires
            old(self).wf(),
            candidate.wf(),
        ensures
            final(self).wf(),
            r == (!old(self).live_view().contains(candidate@) && !old(self).previous_view().contains(
                candidate@,
            )),
            final(self).previous_view() == old(self).previous_view(),
            final(self).live_view() == if r {
                old(self).live_view().push(candidate@)
            } else {
                old(self).live_view()
            },
    {
        if InviteCodes::position_in(&self.live, &candidate).is_some()
            || InviteCodes::position_in(&self.previous_invite_codes, &candidate).is_some() {
            return false;
        }
        let ghost before = self.live_view();
        let ghost code = candidate@;
        self.live.push(candidate);
        assert(self.live_view() =~= before.push(code));
        assert(self.live_view().no_duplicates()) by {
            assert forall|a: int, b: int| 0 <= a < self.live_view().len() && 0 <= b < self.live_view().len() && a != b
                implies self.live_view()[a] != self.live_view()[b] by {
                if a == before.len() {
                    assert(before[b] == self.live_view()[b]);
                    assert(before[b] != code) by {
                        if before[b] == code {
                            assert(before.contains(code));
                        }
                    }
                } else if b == before.len() {
                    assert(before[a] == self.live_view()[a]);
                    assert(before[a] != code) by {
                        if before[a] == code {
                            assert(before.contains(code));
                        }
                    }
                } else {
                    assert(before[a] == self.live_view()[a]);
                    assert(before[b] == self.live_view()[b]);
                }
            }
        }
        assert forall|i: int| 0 <= i < self.live_view().len() implies is_invite_code(#[trigger] self.live_view()[i]) by {
            if i < before.len() {
                assert(before[i] == self.live_view()[i]);
            }
        }
        true
    }

    /// Issues a fresh code for a new room: a random code that is neither live
    /// nor recently retired, tried a bounded number of times.
    pub fn create(&mut self) -> (r: Result<InviteCode, CreateLobbyError>)
        requires
            old(self).wf(),
        ensures
            final(self).wf(),
            final(self).previous_view() == old(self).previous_view(),
            match r {
                Ok(code) => {
                    &&& code.wf()
                    &&& code@.no_duplicates()
                    &&& !old(self).live_view().contains(code@)
                    &&& !old(self).previous_view().contains(code@)
                    &&& final(self).live_view() == old(self).live_view().push(code@)
                },
                Err(_) => final(self).live_view() == old(self).live_view(),
            },
    {
        let mut attempt: usize = 0;
        while attempt < INVITE_CODE_ATTEMPTS
            invariant
                self.wf(),
                self.live_view() == old(self).live_view(),
                self.previous_view() == old(self).previous_view(),
            decreases INVITE_CODE_ATTEMPTS - attempt,
        {
            let candidate = InviteCode::generate();
            let kept = candidate.duplicate();
            if self.try_reserve(candidate) {
                return Ok(kept);
            }
            attempt = attempt + 1;
        }
        Err(CreateLobbyError::NoFreeInviteCode)
    }

    /// Retires the code of a room that ended: it stops being live and is held
    /// back for a while.
    pub fn remove(&mut self, code: &InviteCode)
        requires
            old(self).wf(),
        ensures
            final(self).wf(),
            !final(self).live_view().contains(code@),
            forall|c: Seq<char>| c != code@ ==> (final(self).live_view().contains(c) <==> old(self).live_view().contains(c)),
            final(self).previous_view() == retired(old(self).previous_view(), code@),
    {
        match InviteCodes::position_in(&self.live, code) {
            Some(i) => {
                let ghost before = self.live_view();
                let _ = self.live.remove(i);
                assert(self.live_view() =~= before.remove(i as int));
                assert forall|c: Seq<char>| c != code@ implies (self.live_view().contains(c) <==> before.contains(c)) by {
                    if before.contains(c) {
                        let k = choose|k: int| 0 <= k < before.len() && before[k] == c;
                        assert(k != i);
                        if k < i {
                            assert(self.live_view()[k] == c);
                        } else {
                            assert(self.live_view()[k - 1] == c);
                        }
                    }
                }
                assert(!self.live_view().contains(code@)) by {
                    if self.live_view().contains(code@) {
                        let k = choose|k: int| 0 <= k < self.live_view().len() && self.live_view()[k] == code@;
                        if k < i {
                            assert(before[k] == before[i as int]);
                        } else {
                            assert(before[k + 1] == before[i as int]);
                        }
                    }
                }
                assert forall|a: int, b: int| 0 <= a < self.live_view().len() && 0 <= b < self.live_view().len() && a != b
                    implies self.live_view()[a] != self.live_view()[b] by {
                    let a0 = if a < i { a } else { a + 1 };
                    let b0 = if b < i { b } else { b + 1 };
                    assert(self.live_view()[a] == before[a0]);
                    assert(self.live_view()[b] == before[b0]);
                }
                assert forall|k: int| 0 <= k < self.live_view().len() implies is_invite_code(#[trigger] self.live_view()[k]) by {
                    let k0 = if k < i { k } else { k + 1 };
                    assert(self.live_view()[k] == before[k0]);
                }
            },
            None => {},
        }
        let ghost history = self.previous_view();
        self.previous_invite_codes.push(code.duplicate());
        assert(self.previous_view() =~= history.push(code@));
        let len = self.previous_invite_codes.len();
        if len > PREVIOUS_INVITE_CODES_LIMIT {
            let ghost pushed = self.previous_view();
            let start = len / 10;
            let mut kept: Vec<InviteCode> = Vec::new();
            let mut k: usize = start;
            while k < len
                invariant
                    start <= k <= len,
                    len == self.previous_invite_codes@.len(),
                    pushed == codes_view(self.previous_invite_codes@),
                    codes_view(kept@) == pushed.subrange(start as int, k as int),
                decreases len - k,
            {
                let ghost before = kept@;
                let copy = self.previous_invite_codes[k].duplicate();
                assert(copy@ == pushed[k as int]);
                kept.push(copy);
                assert(codes_view(kept@) =~= codes_view(before).push(copy@));
                assert(codes_view(kept@) =~= pushed.subrange(start as int, k + 1));
                k = k + 1;
            }
            self.previous_invite_codes = kept;
        }
    }
}

} // verus!

//! What the browser binding checks before it hands work to detection: session
//! handles, frame buffers, analysed samples, and configuration values.
use vstd::prelude::*;
use vstd::string::StringExecFns;

use crate::detector::DetectorKind;
use crate::model::{DetectionOptions, MinSceneLenPolicy};
use crate::similarity::FrameVisualSignature;
use crate::text::{concat, decimal, decimal_string, same_text};

verus! {

/// The first free slot at or after `i`, or the number of slots when none is free.
pub open spec fn first_free<T>(slots: Seq<Option<T>>, i: int) -> int
    decreases slots.len() - i,
{
    if i < 0 || i >= slots.len() || slots[i] is None {
        i
    } else {
        first_free(slots, i + 1)
    }
}

/// The slots after inserting `session`, and its handle: the first free slot is
/// reused; otherwise a new slot is added. A handle is the slot's position plus one.
pub open spec fn slots_insert<T>(slots: Seq<Option<T>>, session: T) -> (Seq<Option<T>>, u32) {
    let free = first_free(slots, 0);
    if free < slots.len() {
        (slots.update(free, Some(session)), (free + 1) as u32)
    } else {
        (slots.push(Some(session)), (slots.len() + 1) as u32)
    }
}

/// The session a handle names, if that slot holds one.
pub open spec fn slot_session<T>(slots: Seq<Option<T>>, handle: u32) -> Option<T> {
    if handle == 0 || handle > slots.len() {
        None
    } else {
        slots[handle - 1]
    }
}

proof fn lemma_first_free_bounds<T>(slots: Seq<Option<T>>, i: int)
    requires
        0 <= i <= slots.len(),
    ensures
        i <= first_free(slots, i) <= slots.len(),
        first_free(slots, i) < slots.len() ==> slots[first_free(slots, i)] is None,
    decreases slots.len() - i,
{
    if i < slots.len() && slots[i] is Some {
        lemma_first_free_bounds(slots, i + 1);
    }
}

/// The open sessions of the browser binding, by handle.
pub struct SessionSlots<T> {
    slots: Vec<Option<T>>,
}

impl<T> SessionSlots<T> {
    pub closed spec fn view(&self) -> Seq<Option<T>> {
        self.slots@
    }

    pub fn new() -> (table: Self)
        ensures
            table.view() == Seq::<Option<T>>::empty(),
    {
        SessionSlots { slots: Vec::new() }
    }

    /// The number of slots, free or not.
    pub fn len(&self) -> (n: usize)
        ensures
            n == self.view().len(),
    {
        self.slots.len()
    }

    /// Stores a session and returns its handle, which is never 0.
    pub fn insert(&mut self, session: T) -> (handle: u32)
        requires
            old(self).view().len() < u32::MAX,
        ensures
            (final(self).view(), handle) == slots_insert(old(self).view(), session),
            handle != 0,
    {
        proof {
            lemma_first_free_bounds(self.slots@, 0);
        }
        let mut i: usize = 0;
        while i < self.slots.len() && self.slots[i].is_some()
            invariant
                i <= self.slots@.len(),
                first_free(self.slots@, 0) == first_free(self.slots@, i as int),
            decreases self.slots@.len() - i,
        {
            i = i + 1;
        }
        if i < self.slots.len() {
            self.slots.set(i, Some(session));
            (i + 1) as u32
        } else {
            self.slots.push(Some(session));
            self.slots.len() as u32
        }
    }

    /// Removes the session a handle names and returns it.
    pub fn take(&mut self, handle: u32) -> (session: Result<T, String>)
        ensures
            handle == 0 ==> (session matches Err(message) && message@ == "invalid session handle"@),
            handle != 0 && slot_session(old(self).view(), handle) is None ==> (session matches Err(
                message,
            ) && message@ == "unknown or finished session handle"@),
            handle != 0 && slot_session(old(self).view(), handle) is Some ==> (session matches Ok(
                s,
            ) && Some(s) == slot_session(old(self).view(), handle)),
            final(self).view() == if slot_session(old(self).view(), handle) is Some {
                old(self).view().update(handle - 1, None)
            } else {
                old(self).view()
            },
    {
        if handle == 0 {
            return Err(<String as StringExecFns>::from_str("invalid session handle"));
        }
        let index: usize = (handle - 1) as usize;
        if index >= self.slots.len() {
            return Err(<String as StringExecFns>::from_str("unknown or finished session handle"));
        }
        let mut slot: Option<T> = None;
        std::mem::swap(&mut slot, &mut self.slots[index]);
        match slot {
            Some(s) => Ok(s),
            None => Err(<String as StringExecFns>::from_str("unknown or finished session handle")),
        }
    }

    /// Puts a session back under the handle it was taken from.
    pub fn restore(&mut self, handle: u32, session: T)
        requires
            1 <= handle <= old(self).view().len(),
        ensures
            final(self).view() == old(self).view().update(handle - 1, Some(session)),
    {
        let index: usize = (handle - 1) as usize;
        self.slots.set(index, Some(session));
    }
}

/// Law: the handle that storing a session returns names that session; taking
/// it gives the session back, and afterwards the handle names nothing.
pub proof fn law_handle_names_stored_session<T>(slots: Seq<Option<T>>, session: T)
    requires
        slots.len() < u32::MAX,
    ensures
        ({
            let (stored, handle) = slots_insert(slots, session);
            &&& handle != 0
            &&& slot_session(stored, handle) == Some(session)
            &&& slot_session(stored.update(handle - 1, None), handle) is None
        }),
{
    lemma_first_free_bounds(slots, 0);
}

/// Law: storing a session leaves every other session under its handle.
pub proof fn law_insert_keeps_other_sessions<T>(slots: Seq<Option<T>>, session: T, other: u32)
    requires
        slots.len() < u32::MAX,
        slot_session(slots, other) is Some,
    ensures
        slot_session(slots_insert(slots, session).0, other) == slot_session(slots, other),
{
    lemma_first_free_bounds(slots, 0);
}

/// The byte length of a `width` x `height` RGB frame, when it fits in `usize`.
pub open spec fn rgb_len(width: u32, height: u32) -> int {
    width as int * height as int * 3
}

/// The messages for a frame buffer that does not fit its dimensions; `prefix`
/// names the caller.
pub open spec fn frame_buffer_error(prefix: Seq<char>, width: u32, height: u32, received: usize) -> Option<
    Seq<char>,
> {
    if width == 0 || height == 0 {
        Some(prefix + "frame dimensions must be non-zero"@)
    } else if rgb_len(width, height) > usize::MAX {
        Some(prefix + "frame dimensions overflow RGB buffer size"@)
    } else if rgb_len(width, height) != received {
        Some(
            prefix + "RGB buffer length mismatch: expected "@ + decimal(rgb_len(width, height) as nat)
                + ", received "@ + decimal(received as nat),
        )
    } else {
        None
    }
}

/// Checks that a buffer of `received` bytes holds a `width` x `height` RGB
/// frame, and returns its length.
pub fn check_frame_buffer(prefix: &str, width: u32, height: u32, received: usize) -> (checked:
    Result<usize, String>)
    ensures
        match frame_buffer_error(prefix@, width, height, received) {
            Some(text) => checked matches Err(message) && message@ == text,
            None => checked == Ok::<usize, String>(received),
        },
{
    if width == 0 || height == 0 {
        return Err(concat(prefix, "frame dimensions must be non-zero"));
    }
    let expected = match (width as usize).checked_mul(height as usize) {
        Some(pixels) => pixels.checked_mul(3),
        None => None,
    };
    let expected = match expected {
        Some(n) => n,
        None => {
            proof {
                if width as int * height as int <= usize::MAX {
                    assert(width as int * height as int * 3 > usize::MAX);
                } else {
                    assert(width as int * height as int * 3 >= width as int * height as int)
                        by (nonlinear_arith)
                        requires
                            width as int * height as int >= 0,
                    ;
                }
            }
            return Err(concat(prefix, "frame dimensions overflow RGB buffer size"));
        },
    };
    if received != expected {
        let expected_digits = decimal_string(expected as u64);
        let received_digits = decimal_string(received as u64);
        let a = concat(prefix, "RGB buffer length mismatch: expected ");
        let b = concat(a.as_str(), expected_digits.as_str());
        let c = concat(b.as_str(), ", received ");
        return Err(concat(c.as_str(), received_digits.as_str()));
    }
    Ok(received)
}

/// At most this many analysed samples are kept for scene similarity.
pub const MAX_BROWSER_SIGNATURES: usize = 200000;

/// Why an analysed sample was refused, if it was.
pub open spec fn signature_refusal(recorded: Seq<FrameVisualSignature>, signature: FrameVisualSignature) -> Option<Seq<char>> {
    if recorded.len() >= MAX_BROWSER_SIGNATURES {
        Some("scene similarity accepts at most 200000 analyzed samples"@)
    } else if recorded.len() > 0 && signature.frame.0 <= recorded.last().frame.0 {
        Some("scene similarity sample indexes must increase"@)
    } else {
        None
    }
}

/// The samples are in increasing frame order.
pub open spec fn increasing_samples(recorded: Seq<FrameVisualSignature>) -> bool {
    forall|i: int, j: int| 0 <= i < j < recorded.len() ==> recorded[i].frame.0 < recorded[j].frame.0
}

/// Records an analysed sample, refusing one past the limit or out of order.
pub fn record_signature(recorded: &mut Vec<FrameVisualSignature>, signature: FrameVisualSignature) -> (result:
    Result<(), String>)
    requires
        increasing_samples(old(recorded)@),
    ensures
        increasing_samples(final(recorded)@),
        final(recorded)@.len() <= if old(recorded)@.len() <= MAX_BROWSER_SIGNATURES {
            MAX_BROWSER_SIGNATURES as int
        } else {
            old(recorded)@.len() as int
        },
        match signature_refusal(old(recorded)@, signature) {
            Some(text) => (result matches Err(message) && message@ == text) && final(recorded)@ == old(
                recorded,
            )@,
            None => result is Ok && final(recorded)@ == old(recorded)@.push(signature),
        },
{
    if recorded.len() >= MAX_BROWSER_SIGNATURES {
        return Err(
            <String as StringExecFns>::from_str(
                "scene similarity accepts at most 200000 analyzed samples",
            ),
        );
    }
    let n = recorded.len();
    if n > 0 && signature.frame.0 <= recorded[n - 1].frame.0 {
        return Err(
            <String as StringExecFns>::from_str("scene similarity sample indexes must increase"),
        );
    }
    recorded.push(signature);
    Ok(())
}

/// The minimum scene length policy a browser configuration names.
pub open spec fn policy_named(name: Seq<char>) -> Option<MinSceneLenPolicy> {
    if name == "suppress"@ {
        Some(MinSceneLenPolicy::Suppress)
    } else if name == "merge_last"@ {
        Some(MinSceneLenPolicy::MergeLast)
    } else {
        None
    }
}

/// The detection options of a browser configuration: the defaults, with the
/// minimum scene length and its policy replaced where given.
pub fn browser_options(min_scene_len: Option<u64>, policy: Option<&str>) -> (options: Result<
    DetectionOptions,
    String,
>)
    ensures
        match policy {
            Some(name) => match policy_named(name@) {
                Some(p) => options matches Ok(o) && o.min_scene_len_policy == p,
                None => options matches Err(message) && message@
                    == "unsupported minimum scene length policy: "@ + name@,
            },
            None => options matches Ok(o) && o.min_scene_len_policy == MinSceneLenPolicy::Suppress,
        },
        options matches Ok(o) ==> o.min_scene_len == match min_scene_len {
            Some(n) => n,
            None => 15,
        },
{
    let mut options = DetectionOptions::default();
    if let Some(n) = min_scene_len {
        options.min_scene_len = n;
    }
    if let Some(name) = policy {
        if same_text(name, "suppress") {
            options.min_scene_len_policy = MinSceneLenPolicy::Suppress;
        } else if same_text(name, "merge_last") {
            options.min_scene_len_policy = MinSceneLenPolicy::MergeLast;
        } else {
            return Err(concat("unsupported minimum scene length policy: ", name));
        }
    }
    Ok(options)
}

/// Why the counts in a browser configuration are refused, if they are: each one
/// the detector uses must be at least 1.
pub open spec fn count_refusal(
    kind: DetectorKind,
    frame_window: Option<usize>,
    bins: Option<usize>,
    size: Option<usize>,
    lowpass: Option<usize>,
) -> Option<Seq<char>> {
    match kind {
        DetectorKind::Adaptive => if frame_window == Some(0usize) {
            Some("adaptive frame_window must be at least 1"@)
        } else {
            None
        },
        DetectorKind::Histogram => if bins == Some(0usize) {
            Some("histogram bins must be at least 1"@)
        } else {
            None
        },
        DetectorKind::Hash => if size == Some(0usize) {
            Some("hash size must be at least 1"@)
        } else if lowpass == Some(0usize) {
            Some("hash lowpass must be at least 1"@)
        } else {
            None
        },
        _ => None,
    }
}

/// Checks the counts of a browser configuration for the detector it names.
pub fn check_browser_counts(
    kind: DetectorKind,
    frame_window: Option<usize>,
    bins: Option<usize>,
    size: Option<usize>,
    lowpass: Option<usize>,
) -> (checked: Result<(), String>)
    ensures
        match count_refusal(kind, frame_window, bins, size, lowpass) {
            Some(text) => checked matches Err(message) && message@ == text,
            None => checked is Ok,
        },
{
    match kind {
        DetectorKind::Adaptive => {
            if frame_window == Some(0usize) {
                return Err(<String as StringExecFns>::from_str("adaptive frame_window must be at least 1"));
            }
        },
        DetectorKind::Histogram => {
            if bins == Some(0usize) {
                return Err(<String as StringExecFns>::from_str("histogram bins must be at least 1"));
            }
        },
        DetectorKind::Hash => {
            if size == Some(0usize) {
                return Err(<String as StringExecFns>::from_str("hash size must be at least 1"));
            }
            if lowpass == Some(0usize) {
                return Err(<String as StringExecFns>::from_str("hash lowpass must be at least 1"));
            }
        },
        _ => {},
    }
    Ok(())
}

} // verus!

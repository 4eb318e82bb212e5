//! The privacy paste's bookkeeping. The transcript is staged with delayed
//! rendering: the clipboard holds a promise, and the text is handed over only
//! when the target app pastes, which is also the paste confirmation. The
//! previous clipboard contents, every format that is held as bytes, are
//! restored afterwards, but only while the paste window still owns the
//! clipboard, so a copy the user made in between is never overwritten. The
//! shell makes the system calls.

use vstd::prelude::*;
use crate::text::chars_of;

verus! {

/// The UTF-16 code units of one character.
pub open spec fn utf16_char(c: char) -> Seq<u16> {
    let u = c as u32;
    if u < 0x10000 {
        seq![u as u16]
    } else {
        let v = u - 0x10000;
        seq![(0xD800 + v / 0x400) as u16, (0xDC00 + v % 0x400) as u16]
    }
}

/// The UTF-16 encoding of `s`.
pub open spec fn utf16(s: Seq<char>) -> Seq<u16>
    decreases s.len(),
{
    if s.len() == 0 {
        Seq::empty()
    } else {
        utf16(s.drop_last()) + utf16_char(s.last())
    }
}

/// `s` as UTF-16 followed by a terminating zero, as Windows wants text.
pub fn to_utf16z(s: &str) -> (r: Vec<u16>)
    ensures
        r@ == utf16(s@).push(0u16),
{
    let cs = chars_of(s);
    let mut out: Vec<u16> = Vec::new();
    let mut i: usize = 0;
    while i < cs.len()
        invariant
            cs@ == s@,
            i <= cs@.len(),
            out@ == utf16(cs@.take(i as int)),
        decreases cs.len() - i,
    {
        let c = cs[i];
        let u = c as u32;
        assert(cs@.take(i + 1).drop_last() =~= cs@.take(i as int));
        if u < 0x10000 {
            out.push(u as u16);
        } else {
            let v = u - 0x10000;
            out.push((0xD800 + v / 0x400) as u16);
            out.push((0xDC00 + v % 0x400) as u16);
        }
        assert(out@ =~= utf16(cs@.take(i as int)) + utf16_char(cs@[i as int]));
        i += 1;
    }
    assert(cs@.take(cs@.len() as int) =~= cs@);
    out.push(0u16);
    out
}

/// The length of the text in `buf` that ends at its first zero, or all of
/// `buf` when there is none.
pub fn text_len_before_nul(buf: &[u16]) -> (n: usize)
    ensures
        n <= buf@.len(),
        forall|i: int| 0 <= i < n ==> buf@[i] != 0,
        n < buf@.len() ==> buf@[n as int] == 0,
{
    let mut n: usize = 0;
    while n < buf.len()
        invariant
            n <= buf@.len(),
            forall|i: int| 0 <= i < n ==> buf@[i] != 0,
        decreases buf.len() - n,
    {
        if buf[n] == 0 {
            return n;
        }
        n += 1;
    }
    n
}

/// The three clipboard formats that keep the staged text out of clipboard
/// monitors, clipboard history and the cloud clipboard, each with the value
/// it is set to.
pub fn privacy_formats() -> (f: Vec<(&'static str, u32)>)
    ensures
        f@.len() == 3,
        f@[0].0@ == "ExcludeClipboardContentFromMonitorProcessing"@ && f@[0].1 == 0,
        f@[1].0@ == "CanIncludeInClipboardHistory"@ && f@[1].1 == 0,
        f@[2].0@ == "CanUploadToCloudClipboard"@ && f@[2].1 == 0,
{
    let mut f: Vec<(&'static str, u32)> = Vec::new();
    f.push(("ExcludeClipboardContentFromMonitorProcessing", 0));
    f.push(("CanIncludeInClipboardHistory", 0));
    f.push(("CanUploadToCloudClipboard", 0));
    f
}

/// The key strokes of a synthetic Ctrl+V as (virtual key, key-up) pairs:
/// Ctrl down, V down, V up, Ctrl up.
pub fn ctrl_v_strokes() -> (k: Vec<(u16, bool)>)
    ensures
        k@ == seq![(0x11u16, false), (0x56u16, false), (0x56u16, true), (0x11u16, true)],
{
    let mut k: Vec<(u16, bool)> = Vec::new();
    k.push((0x11, false));
    k.push((0x56, false));
    k.push((0x56, true));
    k.push((0x11, true));
    assert(k@ =~= seq![(0x11u16, false), (0x56u16, false), (0x56u16, true), (0x11u16, true)]);
    k
}

/// Whether a clipboard format's handle is something other than movable
/// global memory: a bitmap, a metafile, a palette, an owner-display
/// format, or a private or GDI-object handle. Such a handle cannot be
/// copied out as bytes; Windows synthesizes the standard ones (a bitmap from
/// its device-independent form) when the rest comes back.
pub open spec fn handle_format(format: u32) -> bool {
    ||| format == 2 || format == 3 || format == 9 || format == 14
    ||| format == 0x80 || format == 0x82 || format == 0x83 || format == 0x8E
    ||| 0x200 <= format <= 0x3FF
}

/// Whether the snapshot taken before a paste keeps a format: every format
/// whose contents are bytes in global memory, so that text, rich text,
/// images and copied files all come back.
pub fn snapshot_format_kept(format: u32) -> (b: bool)
    ensures
        b == !handle_format(format),
{
    !(format == 2 || format == 3 || format == 9 || format == 14 || format == 0x80 || format == 0x82
        || format == 0x83 || format == 0x8E || (0x200 <= format && format <= 0x3FF))
}

/// One clipboard format and its contents.
pub struct ClipData {
    pub format: u32,
    pub data: Vec<u8>,
}

/// A clipboard snapshot as plain values: each format with its bytes, in
/// the order they were found.
pub open spec fn clip_view(entries: Seq<ClipData>) -> Seq<(u32, Seq<u8>)> {
    entries.map_values(|e: ClipData| (e.format, e.data@))
}

/// An optional snapshot as plain values.
pub open spec fn opt_clip(s: Option<Vec<ClipData>>) -> Option<Seq<(u32, Seq<u8>)>> {
    match s {
        Some(v) => Some(clip_view(v@)),
        None => None,
    }
}

/// What the clipboard window does when asked to restore.
pub enum RestoreStep {
    /// Another program owns the clipboard now: leave it alone.
    Skip,
    /// Empty the clipboard and put back these formats, if any.
    Write(Option<Vec<ClipData>>),
}

/// The staged paste: the text promised to the clipboard, the formats to put
/// back afterwards, and whether the target app has pulled the text.
pub struct ClipboardOwner {
    pending: Option<Vec<u16>>,
    restore_to: Option<Vec<ClipData>>,
    rendered: bool,
}

/// An optional buffer as plain values.
pub open spec fn opt_units(b: Option<Vec<u16>>) -> Option<Seq<u16>> {
    match b {
        Some(v) => Some(v@),
        None => None,
    }
}

impl ClipboardOwner {
    pub closed spec fn pending(&self) -> Option<Seq<u16>> {
        opt_units(self.pending)
    }

    pub closed spec fn restore_to(&self) -> Option<Seq<(u32, Seq<u8>)>> {
        opt_clip(self.restore_to)
    }

    pub closed spec fn rendered(&self) -> bool {
        self.rendered
    }

    /// Nothing staged.
    pub fn new() -> (c: Self)
        ensures
            c.pending() is None,
            c.restore_to() is None,
            !c.rendered(),
    {
        ClipboardOwner { pending: None, restore_to: None, rendered: false }
    }

    /// Stages `text` for a paste and remembers `restore_to`, the clipboard
    /// formats before it.
    pub fn stage(&mut self, text: &str, restore_to: Option<Vec<ClipData>>)
        ensures
            final(self).pending() == Some(utf16(text@).push(0u16)),
            final(self).restore_to() == opt_clip(restore_to),
            !final(self).rendered(),
    {
        self.pending = Some(to_utf16z(text));
        self.restore_to = restore_to;
        self.rendered = false;
    }

    /// The target app is pasting: the text to render now. The paste counts
    /// as confirmed from here on.
    pub fn render(&mut self) -> (t: Option<Vec<u16>>)
        ensures
            opt_units(t) == old(self).pending(),
            final(self).pending() == old(self).pending(),
            final(self).restore_to() == old(self).restore_to(),
            final(self).rendered(),
    {
        self.rendered = true;
        match &self.pending {
            Some(p) => Some(p.clone()),
            None => None,
        }
    }

    /// Whether the target app pulled the staged text.
    pub fn is_rendered(&self) -> (b: bool)
        ensures
            b == self.rendered(),
    {
        self.rendered
    }

    /// Restores the clipboard after a paste. `still_owner` tells whether the
    /// paste window still owns the clipboard; if not, the user copied
    /// something since, and nothing is touched.
    pub fn restore(&mut self, still_owner: bool) -> (step: RestoreStep)
        ensures
            !still_owner ==> step is Skip && final(self).restore_to() == old(self).restore_to(),
            still_owner ==> (step matches RestoreStep::Write(t) && opt_clip(t) == old(self).restore_to())
                && final(self).restore_to() is None,
            final(self).pending() == old(self).pending(),
            final(self).rendered() == old(self).rendered(),
    {
        if !still_owner {
            return RestoreStep::Skip;
        }
        let t = self.restore_to.take();
        RestoreStep::Write(t)
    }
}

/// Staging a paste and restoring afterwards puts back every format of the
/// snapshot, with its bytes, while the clipboard is still ours; once another
/// program owns it, nothing is written. `staged` is the owner after
/// `stage` was given `snapshot`, `pasted` the owner after the target app
/// pulled the text, and `step` what `restore` answered.
pub proof fn lemma_restore_puts_back_snapshot(
    staged: ClipboardOwner,
    pasted: ClipboardOwner,
    snapshot: Option<Vec<ClipData>>,
    step: RestoreStep,
    still_owner: bool,
)
    requires
        staged.restore_to() == opt_clip(snapshot),
        pasted.restore_to() == staged.restore_to(),
        still_owner ==> (step matches RestoreStep::Write(t) && opt_clip(t) == pasted.restore_to()),
        !still_owner ==> step is Skip,
    ensures
        step matches RestoreStep::Write(t) ==> still_owner && opt_clip(t) == opt_clip(snapshot),
        step is Skip ==> !still_owner,
{
}

} // verus!

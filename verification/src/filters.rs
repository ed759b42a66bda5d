use vstd::prelude::*;

use crate::audio::{
    check_channel_mapping, first_bad, mapping_index_text, mapping_len_text, no_channels_text, AudioInfo,
};

verus! {

/// How many frames a channel remapper asks of its ancestor at a time.
pub const REMAP_BLOCK_FRAMES: usize = 1024;

/// A copy of `num` frames, from `from_offset` in the block a filter holds
/// to `to_offset` in the reader's buffer.
#[derive(Debug, Clone, Copy, PartialEq, Eq, Structural)]
pub struct BlockCopy {
    pub num: usize,
    pub from_offset: usize,
    pub to_offset: usize,
}

/// A read in progress: the frames the reader's buffer takes, and how many
/// of them are written.
#[derive(Debug, Clone, Copy, PartialEq, Eq, Structural)]
pub struct FilterRead {
    pub want: usize,
    pub written: usize,
}

/// The smaller of two counts.
pub open spec fn min_usize(a: usize, b: usize) -> usize {
    if a < b {
        a
    } else {
        b
    }
}

impl FilterRead {
    /// Whether the reader's buffer is full, so that the read is over.
    pub fn is_done(&self) -> (d: bool)
        ensures
            d == (self.written >= self.want),
    {
        self.written >= self.want
    }
}

/// After a block, whether a read goes on asking its ancestor for more. It
/// ends once the reader's buffer is full, and also once the ancestor gave
/// fewer frames than were asked of it (`got < asked`): a source that gives
/// fewer frames than asked has no more to send, so the read returns what it
/// has, and returns fewer frames than its buffer takes only then.
pub fn read_goes_on(read: &FilterRead, asked: usize, got: usize) -> (b: bool)
    ensures
        b == (read.written < read.want && got >= asked),
        !b && read.written < read.want ==> got < asked,
{
    read.written < read.want && got >= asked
}

/// The block of frames a filter makes at a time, and how many frames at
/// its end are still held for the next read because they did not fit the
/// reader's buffer.
pub struct HeldBlock {
    pub block_frames: usize,
    pub remaining_frames: usize,
}

impl HeldBlock {
    pub open spec fn wf(&self) -> bool {
        self.remaining_frames <= self.block_frames
    }

    /// Between the steps of `read`: frames are held back only once the
    /// reader's buffer is full.
    pub open spec fn in_read(&self, read: FilterRead) -> bool {
        &&& self.wf()
        &&& read.written <= read.want
        &&& read.written < read.want ==> self.remaining_frames == 0
    }

    /// A block of `block_frames` frames, holding none.
    pub fn new(block_frames: usize) -> (h: HeldBlock)
        ensures
            h.wf(),
            h.block_frames == block_frames,
            h.remaining_frames == 0,
    {
        HeldBlock { block_frames, remaining_frames: 0 }
    }

    /// A seek drops the frames held from before it.
    pub fn clear(&mut self)
        ensures
            final(self).wf(),
            final(self).remaining_frames == 0,
            final(self).block_frames == old(self).block_frames,
    {
        self.remaining_frames = 0;
    }

    /// Starts a read into a buffer of `want` frames: the frames held go
    /// first, as many as fit.
    pub fn begin_read(&mut self, want: usize) -> (r: (FilterRead, BlockCopy))
        requires
            old(self).wf(),
        ensures
            r.1 == (BlockCopy {
                num: min_usize(old(self).remaining_frames, want),
                from_offset: (old(self).block_frames - old(self).remaining_frames) as usize,
                to_offset: 0,
            }),
            r.0 == (FilterRead { want, written: r.1.num }),
            final(self).remaining_frames == old(self).remaining_frames - r.1.num,
            final(self).block_frames == old(self).block_frames,
            final(self).in_read(r.0),
            r.0.written + final(self).remaining_frames == old(self).remaining_frames,
    {
        let num = if self.remaining_frames < want {
            self.remaining_frames
        } else {
            want
        };
        let copy = BlockCopy { num, from_offset: self.block_frames - self.remaining_frames, to_offset: 0 };
        self.remaining_frames = self.remaining_frames - num;
        (FilterRead { want, written: num }, copy)
    }

    /// After the filter made `made` frames into its block: they go into the
    /// reader's buffer after what is written, as many as fit, and the rest
    /// is held. No frame is lost or given twice: the frames written and
    /// held grow by exactly the frames made.
    pub fn after_block(&mut self, read: &mut FilterRead, made: usize) -> (c: BlockCopy)
        requires
            old(self).in_read(*old(read)),
            old(read).written < old(read).want,
            made <= old(self).block_frames,
        ensures
            c == (BlockCopy {
                num: min_usize((old(read).want - old(read).written) as usize, made),
                from_offset: 0,
                to_offset: old(read).written,
            }),
            final(read).want == old(read).want,
            final(read).written == old(read).written + c.num,
            final(self).remaining_frames == made - c.num,
            final(self).block_frames == old(self).block_frames,
            final(self).in_read(*final(read)),
            final(read).written + final(self).remaining_frames == old(read).written + old(self).remaining_frames
                + made,
    {
        let room = read.want - read.written;
        let num = if room < made {
            room
        } else {
            made
        };
        let copy = BlockCopy { num, from_offset: 0, to_offset: read.written };
        read.written = read.written + num;
        self.remaining_frames = made - num;
        copy
    }
}

/// A filter that feeds each of its channels from one channel of its
/// ancestor. It reads the ancestor a block at a time and holds the frames
/// of the last block that did not fit the reader's buffer for the next
/// read.
pub struct ChannelRemapper {
    pub info: AudioInfo,
    pub mapping: Vec<usize>,
    pub held: HeldBlock,
}

impl ChannelRemapper {
    pub open spec fn wf(&self) -> bool {
        self.held.wf() && self.held.block_frames == REMAP_BLOCK_FRAMES
    }

    /// A remapper of an ancestor giving `ancestor` to `new_channels`
    /// channels, output channel `i` taking the ancestor's channel
    /// `mapping[i]`; or why the mapping is refused.
    pub fn new(ancestor: AudioInfo, new_channels: usize, mapping: &[usize]) -> (r: Result<ChannelRemapper, String>)
        ensures
            new_channels < 1 ==> (r matches Err(m) && m@ == no_channels_text()),
            new_channels >= 1 && mapping@.len() != new_channels ==> (r matches Err(m) && m@ == mapping_len_text(
                new_channels as nat,
                mapping@.len(),
            )),
            new_channels >= 1 && mapping@.len() == new_channels ==> match first_bad(
                mapping@,
                ancestor.num_channels,
            ) {
                Some(i) => r matches Err(m) && m@ == mapping_index_text(
                    ancestor.num_channels as nat,
                    mapping@[i] as nat,
                ),
                None => r matches Ok(f) && f.wf() && f.held.remaining_frames == 0 && f.mapping@ == mapping@
                    && f.info == (AudioInfo { num_channels: new_channels, sample_rate: ancestor.sample_rate }),
            },
    {
        match check_channel_mapping(ancestor, new_channels, mapping) {
            Err(m) => Err(m),
            Ok(info) => Ok(
                ChannelRemapper {
                    info,
                    mapping: vstd::slice::slice_to_vec(mapping),
                    held: HeldBlock::new(REMAP_BLOCK_FRAMES),
                },
            ),
        }
    }

    /// What the remapper gives.
    pub fn info(&self) -> (i: AudioInfo)
        ensures
            i == self.info,
    {
        self.info
    }
}

/// The bookkeeping of a filter that resamples its ancestor to another
/// sample rate: what it gives, and the block of output frames that the
/// resampler makes at a time with the frames of it still held.
pub struct ResamplerFilter {
    pub info: AudioInfo,
    pub held: HeldBlock,
}

impl ResamplerFilter {
    /// A resampler of an ancestor giving `ancestor` to `target_sample_rate`,
    /// whose resampler makes at most `out_block_frames` frames at a time.
    pub fn new(ancestor: AudioInfo, target_sample_rate: usize, out_block_frames: usize) -> (f: ResamplerFilter)
        ensures
            f.info == (AudioInfo { num_channels: ancestor.num_channels, sample_rate: target_sample_rate }),
            f.held.wf(),
            f.held.block_frames == out_block_frames,
            f.held.remaining_frames == 0,
    {
        ResamplerFilter {
            info: AudioInfo { num_channels: ancestor.num_channels, sample_rate: target_sample_rate },
            held: HeldBlock::new(out_block_frames),
        }
    }

    /// What the resampler gives.
    pub fn info(&self) -> (i: AudioInfo)
        ensures
            i == self.info,
    {
        self.info
    }
}

} // verus!

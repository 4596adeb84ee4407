//! Download progress accounting: assembling a body from chunks while
//! keeping the running statistics a progress display reads.
//!
//! The network reads themselves happen outside; the accounting takes the
//! chunk sizes as they arrive.

use vstd::prelude::*;

use crate::util::push_char;
use crate::util::spec_decimal;
use crate::util::format_dhms;
use crate::util::u64_to_string;

verus! {

/// How many download speed samples the statistics keep.
pub const SPEED_SAMPLES: usize = 5;

/// The concatenation of the chunks.
pub open spec fn spec_concat(chunks: Seq<Seq<u8>>) -> Seq<u8>
    decreases chunks.len(),
{
    if chunks.len() == 0 {
        Seq::empty()
    } else {
        spec_concat(chunks.drop_last()) + chunks.last()
    }
}

/// Tracks a download in progress: the total, the bytes of the current
/// second, and a sliding window of per-second samples.
pub struct RemoteReader {
    content_len: Option<usize>,
    total_downloaded: usize,
    downloaded_this_sec: usize,
    downloaded_last_few_secs: Vec<usize>,
}

impl RemoteReader {
    /// The size hint the response carried.
    pub closed spec fn content_len_view(&self) -> Option<usize> {
        self.content_len
    }

    /// The total number of bytes seen.
    pub closed spec fn total_view(&self) -> nat {
        self.total_downloaded as nat
    }

    /// The per-second samples, newest first.
    pub closed spec fn samples_view(&self) -> Seq<usize> {
        self.downloaded_last_few_secs@
    }

    /// The window never grows beyond its sample count.
    pub open spec fn wf(self) -> bool {
        self.samples_view().len() <= SPEED_SAMPLES
    }

    /// Prepares accounting for a response with the given size hint.
    pub fn from_response(content_len: Option<usize>) -> (r: RemoteReader)
        ensures
            r.wf(),
            r.content_len_view() == content_len,
            r.total_view() == 0,
            r.samples_view().len() == 0,
    {
        RemoteReader {
            content_len,
            total_downloaded: 0,
            downloaded_this_sec: 0,
            downloaded_last_few_secs: Vec::new(),
        }
    }

    /// Accounts one chunk; when a second has elapsed the current count moves
    /// into the sample window, evicting the oldest sample if the window is
    /// full.
    pub fn record(&mut self, read: usize, second_elapsed: bool)
        requires
            old(self).wf(),
        ensures
            final(self).wf(),
            final(self).content_len_view() == old(self).content_len_view(),
            final(self).total_view() == if old(self).total_view() + read <= usize::MAX {
                (old(self).total_view() + read) as int
            } else {
                usize::MAX as int
            },
    {
        if self.total_downloaded <= usize::MAX - read {
            self.total_downloaded = self.total_downloaded + read;
        } else {
            self.total_downloaded = usize::MAX;
        }
        if self.downloaded_this_sec <= usize::MAX - read {
            self.downloaded_this_sec = self.downloaded_this_sec + read;
        } else {
            self.downloaded_this_sec = usize::MAX;
        }
        if second_elapsed {
            if self.downloaded_last_few_secs.len() == SPEED_SAMPLES {
                self.downloaded_last_few_secs.pop();
            }
            self.downloaded_last_few_secs.insert(0, self.downloaded_this_sec);
            self.downloaded_this_sec = 0;
        }
    }

    /// Assembles the body from the chunks the connection yielded, keeping
    /// the statistics in step; `seconds[i]` says whether a second had
    /// elapsed when chunk `i` arrived.
    pub fn download(&mut self, chunks: &Vec<Vec<u8>>, seconds: &Vec<bool>) -> (r: Vec<u8>)
        requires
            old(self).wf(),
            seconds@.len() == chunks@.len(),
        ensures
            final(self).wf(),
            r.deep_view() == spec_concat(chunks.deep_view()),
    {
        let mut data: Vec<u8> = Vec::new();
        let n = chunks.len();
        let mut i: usize = 0;
        while i < n
            invariant
                self.wf(),
                n == chunks@.len(),
                seconds@.len() == n,
                0 <= i <= n,
                data.deep_view() == spec_concat(chunks.deep_view().take(i as int)),
            decreases n - i,
        {
            let chunk = &chunks[i];
            let mut k: usize = 0;
            let ghost base = data@;
            while k < chunk.len()
                invariant
                    0 <= k <= chunk@.len(),
                    data@ == base + chunk@.take(k as int),
                decreases chunk@.len() - k,
            {
                data.push(chunk[k]);
                proof {
                    assert(data@ =~= base + chunk@.take(k + 1));
                }
                k += 1;
            }
            self.record(chunk.len(), seconds[i]);
            proof {
                assert(chunk@.take(chunk@.len() as int) =~= chunk@);
                assert(chunks.deep_view().take(i + 1).drop_last() =~~= chunks.deep_view().take(
                    i as int,
                ));
                assert(chunks.deep_view().take(i + 1).last() == chunks.deep_view()[i as int]);
                assert(data@ =~= spec_concat(chunks.deep_view().take(i + 1)));
            }
            i += 1;
        }
        proof {
            assert(chunks.deep_view().take(n as int) =~~= chunks.deep_view());
            assert(data.deep_view() =~= data@);
        }
        data
    }
}

/// The decimal rendering of `n`, right-aligned to at least `width`
/// characters with spaces.
pub open spec fn spec_padded(n: nat, width: nat) -> Seq<char> {
    let digits = spec_decimal(n);
    if digits.len() >= width {
        digits
    } else {
        Seq::new((width - digits.len()) as nat, |i: int| ' ') + digits
    }
}

/// Renders `n` right-aligned to at least `width` characters.
pub fn padded_number(n: u64, width: usize) -> (r: String)
    ensures
        r@ == spec_padded(n as nat, width as nat),
{
    let digits = u64_to_string(n);
    let len = digits.as_str().unicode_len();
    if len >= width {
        proof {
            assert(digits@ =~= spec_padded(n as nat, width as nat));
        }
        return digits;
    }
    let mut out = String::new();
    let mut i: usize = 0;
    while i < width - len
        invariant
            len < width,
            len == spec_decimal(n as nat).len(),
            0 <= i <= width - len,
            out@ =~= Seq::new(i as nat, |k: int| ' '),
        decreases width - len - i,
    {
        push_char(&mut out, ' ');
        proof {
            assert(out@ =~= Seq::new((i + 1) as nat, |k: int| ' '));
        }
        i += 1;
    }
    out.append(digits.as_str());
    proof {
        assert(out@ =~= spec_padded(n as nat, width as nat));
    }
    out
}

/// The rendering of an elapsed time: seconds, with minutes, hours and days
/// opening up as the duration grows, each field right-aligned.
pub open spec fn spec_time_suffix(d: nat, h: nat, m: nat, s: nat) -> Seq<char> {
    if d == 0 && h == 0 && m == 0 {
        spec_padded(s, 2) + "s"@
    } else if d == 0 && h == 0 {
        spec_padded(m, 2) + "m "@ + spec_padded(s, 2) + "s"@
    } else if d == 0 {
        spec_padded(h, 2) + "h "@ + spec_padded(m, 2) + "m "@ + spec_padded(s, 2) + "s"@
    } else {
        spec_padded(d, 3) + "d "@ + spec_padded(h, 2) + "h "@ + spec_padded(m, 2) + "m "@
            + spec_padded(s, 2) + "s"@
    }
}

/// Appends a unit-of-time suffix to the duration given in seconds.
pub fn time_suffix(secs: u64) -> (r: String)
    ensures
        exists|d: u64, h: u8, m: u8, sec: u8|
            d * 86400 + h * 3600 + m * 60 + sec == secs && r@ == #[trigger] spec_time_suffix(
                d as nat,
                h as nat,
                m as nat,
                sec as nat,
            ),
{
    let (d, h, m, sec) = format_dhms(secs);
    let mut out = String::new();
    if d == 0 && h == 0 && m == 0 {
        let p = padded_number(sec as u64, 2);
        out.append(p.as_str());
        out.append("s");
    } else if d == 0 && h == 0 {
        let p = padded_number(m as u64, 2);
        out.append(p.as_str());
        out.append("m ");
        let p2 = padded_number(sec as u64, 2);
        out.append(p2.as_str());
        out.append("s");
    } else if d == 0 {
        let p = padded_number(h as u64, 2);
        out.append(p.as_str());
        out.append("h ");
        let p2 = padded_number(m as u64, 2);
        out.append(p2.as_str());
        out.append("m ");
        let p3 = padded_number(sec as u64, 2);
        out.append(p3.as_str());
        out.append("s");
    } else {
        let p = padded_number(d, 3);
        out.append(p.as_str());
        out.append("d ");
        let p2 = padded_number(h as u64, 2);
        out.append(p2.as_str());
        out.append("h ");
        let p3 = padded_number(m as u64, 2);
        out.append(p3.as_str());
        out.append("m ");
        let p4 = padded_number(sec as u64, 2);
        out.append(p4.as_str());
        out.append("s");
    }
    proof {
        assert(out@ =~= spec_time_suffix(d as nat, h as nat, m as nat, sec as nat));
    }
    out
}

/// The rendering of a byte count: scaled to the largest of the binary units
/// it fills, with one (truncated) decimal place of the fraction.
pub open spec fn spec_bytes_unit(size: nat) -> Seq<char> {
    let ki: nat = 1024;
    let mi: nat = 1024 * 1024;
    let gi: nat = 1024 * 1024 * 1024;
    if size >= gi {
        spec_padded(size / gi, 3) + "."@ + spec_decimal((size % gi) * 10 / gi) + " GiB"@
    } else if size >= mi {
        spec_padded(size / mi, 3) + "."@ + spec_decimal((size % mi) * 10 / mi) + " MiB"@
    } else if size >= ki {
        spec_padded(size / ki, 3) + "."@ + spec_decimal((size % ki) * 10 / ki) + " KiB"@
    } else {
        spec_padded(size, 3) + " B"@
    }
}

/// Formats a size in bytes with its binary unit.
pub fn as_bytes_unit(size: usize) -> (r: String)
    ensures
        r@ == spec_bytes_unit(size as nat),
{
    let size64 = size as u64;
    let ki: u64 = 1024;
    let mi: u64 = 1024 * 1024;
    let gi: u64 = 1024 * 1024 * 1024;
    let mut out = String::new();
    if size64 >= gi {
        let p = padded_number(size64 / gi, 3);
        out.append(p.as_str());
        out.append(".");
        let rem = size64 % gi;
        let frac = u64_to_string((rem * 10) / gi);
        out.append(frac.as_str());
        out.append(" GiB");
        proof {
            assert(out@ =~= spec_bytes_unit(size as nat));
        }
    } else if size64 >= mi {
        let p = padded_number(size64 / mi, 3);
        out.append(p.as_str());
        out.append(".");
        let frac = u64_to_string(((size64 % mi) * 10) / mi);
        out.append(frac.as_str());
        out.append(" MiB");
        proof {
            assert(out@ =~= spec_bytes_unit(size as nat));
        }
    } else if size64 >= ki {
        let p = padded_number(size64 / ki, 3);
        out.append(p.as_str());
        out.append(".");
        let frac = u64_to_string(((size64 % ki) * 10) / ki);
        out.append(frac.as_str());
        out.append(" KiB");
        proof {
            assert(out@ =~= spec_bytes_unit(size as nat));
        }
    } else {
        let p = padded_number(size64, 3);
        out.append(p.as_str());
        out.append(" B");
        proof {
            assert(out@ =~= spec_bytes_unit(size as nat));
        }
    }
    out
}

/// Formats a size in bytes per second.
pub fn as_throughput_unit(size: usize) -> (r: String)
    ensures
        r@ == spec_bytes_unit(size as nat) + "/s"@,
{
    let mut out = as_bytes_unit(size);
    out.append("/s");
    out
}

} // verus!

//! An ffmpeg download of one episode: the file it writes, its command line,
//! and what each line of its progress output says.
use vstd::prelude::*;
use vstd::string::*;
use vstd::utf8::is_ascii_chars_encode_utf8;
use crate::text::{
    contains_bytes, contains_str, is_boundary, lemma_split_concat, lemma_split_without,
    slice_range, split_bytes, split_str, strs_bytes,
};

verus! {

/// The file an episode is saved to: `folder`, then `title`, `_`, the episode
/// number and `.mkv`.
pub open spec fn output_file_of(folder: Seq<char>, title: Seq<char>, episode: Seq<char>) -> Seq<char> {
    folder + title + "_"@ + episode + ".mkv"@
}

/// The arguments given to `ffmpeg`: copy the streams of `m3u8_url` into
/// `output`, overwriting it, without the banner.
pub open spec fn arguments_of(m3u8_url: Seq<char>, output: Seq<char>) -> Seq<Seq<char>> {
    seq!["-hide_banner"@, "-y"@, "-i"@, m3u8_url, "-c"@, "copy"@, output]
}

/// What a line of ffmpeg's progress output says.
pub enum ProgressLine<'a> {
    /// The output has ended: the download is over.
    Finished,
    /// A progress report: the hours, minutes and seconds fields of the time
    /// downloaded so far.
    Time(Vec<&'a str>),
    /// Any other line.
    Other,
}

/// The time fields of a progress line `b` (its UTF-8 bytes): the sixth piece
/// between `=` signs, its first 8 bytes, split at `:`; `None` where there are
/// fewer than six pieces, the sixth cannot be cut after 8 bytes, or there are
/// fewer than three fields.
pub open spec fn progress_fields(b: Seq<u8>) -> Option<Seq<Seq<u8>>> {
    let pieces = split_bytes(b, "=".spec_bytes());
    if pieces.len() < 6 || !(8 <= pieces[5].len() && is_boundary(pieces[5], 8)) {
        None
    } else {
        let fields = split_bytes(pieces[5].subrange(0, 8), ":".spec_bytes());
        if fields.len() < 3 {
            None
        } else {
            Some(fields)
        }
    }
}

/// The time fields of a progress line come from its first six `=`-pieces
/// alone: whatever follows them (further `key=value` reports such as
/// `speed=`) leaves the fields as they are.
pub proof fn law_progress_fields_ignore_later_pieces(b: Seq<u8>, rest: Seq<u8>)
    requires
        split_bytes(b, "=".spec_bytes()).len() >= 6,
    ensures
        progress_fields(b + "=".spec_bytes() + rest) == progress_fields(b),
{
    reveal_strlit("=");
    is_ascii_chars_encode_utf8("="@);
    let eq = "=".spec_bytes();
    assert(eq =~= seq![61u8]);
    lemma_split_concat(b, 61u8, rest);
    let pieces = split_bytes(b, eq);
    let longer = split_bytes(b + eq + rest, eq);
    assert(longer[5] == pieces[5]);
}

/// Where the sixth `=`-piece of a progress line starts with a time
/// `hh:mm:ss` (three fields without `:`, eight bytes in all), the time
/// fields are `hh`, `mm` and `ss`, whatever else the line holds.
pub proof fn law_progress_fields_of_time(b: Seq<u8>, hh: Seq<u8>, mm: Seq<u8>, ss: Seq<u8>)
    requires
        split_bytes(b, "=".spec_bytes()).len() >= 6,
        8 <= split_bytes(b, "=".spec_bytes())[5].len(),
        is_boundary(split_bytes(b, "=".spec_bytes())[5], 8),
        split_bytes(b, "=".spec_bytes())[5].subrange(0, 8) == hh + ":".spec_bytes() + mm
            + ":".spec_bytes() + ss,
        !hh.contains(58u8),
        !mm.contains(58u8),
        !ss.contains(58u8),
    ensures
        progress_fields(b) == Some(seq![hh, mm, ss]),
{
    reveal_strlit(":");
    is_ascii_chars_encode_utf8(":"@);
    let colon = ":".spec_bytes();
    assert(colon =~= seq![58u8]);
    let time = split_bytes(b, "=".spec_bytes())[5].subrange(0, 8);
    assert(time =~= hh + colon + (mm + colon + ss));
    lemma_split_concat(hh, 58u8, mm + colon + ss);
    lemma_split_concat(mm, 58u8, ss);
    lemma_split_without(hh, 58u8);
    lemma_split_without(mm, 58u8);
    lemma_split_without(ss, 58u8);
    assert(split_bytes(time, colon) =~= seq![hh, mm, ss]);
}

/// Where the polling of the running downloads stands: how many were started,
/// how many have finished, and the position of the next one to poll in the
/// list of those still running.
pub struct DownloadPoll {
    number: usize,
    finished: usize,
    index: usize,
}

/// What a `DownloadPoll` holds.
pub struct DownloadPollView {
    pub number: usize,
    pub finished: usize,
    pub index: usize,
}

impl View for DownloadPoll {
    type V = DownloadPollView;

    closed spec fn view(&self) -> DownloadPollView {
        DownloadPollView { number: self.number, finished: self.finished, index: self.index }
    }
}

impl DownloadPoll {
    /// The polling of `number_downloads` downloads, none finished, about to
    /// poll the first.
    pub fn new(number_downloads: usize) -> (r: Self)
        ensures
            r@ == (DownloadPollView { number: number_downloads, finished: 0, index: 0 }),
    {
        DownloadPoll { number: number_downloads, finished: 0, index: 0 }
    }

    /// How many downloads have finished.
    pub fn finished(&self) -> (r: usize)
        ensures
            r == self@.finished,
    {
        self.finished
    }

    /// The position of the next download to poll.
    pub fn index(&self) -> (r: usize)
        ensures
            r == self@.index,
    {
        self.index
    }

    /// The position of the download to poll next among the `remaining` still
    /// running; `None` where this round has passed them all.
    pub fn next_to_poll(&self, remaining: usize) -> (r: Option<usize>)
        ensures
            r == (if self@.index < remaining {
                Some(self@.index)
            } else {
                None
            }),
    {
        if self.index < remaining {
            Some(self.index)
        } else {
            None
        }
    }

    /// Records whether the download just polled is over; gives whether it is
    /// to be taken out of the running list. The position moves on by one
    /// either way, so the download that moves into a removed one's place is
    /// polled in the next round.
    pub fn record(&mut self, over: bool) -> (remove: bool)
        requires
            old(self)@.finished < usize::MAX,
            old(self)@.index < usize::MAX,
        ensures
            remove == over,
            final(self)@.number == old(self)@.number,
            final(self)@.finished == old(self)@.finished + (if over {
                1int
            } else {
                0int
            }),
            final(self)@.index == old(self)@.index + 1,
    {
        if over {
            self.finished = self.finished + 1;
        }
        self.index = self.index + 1;
        over
    }

    /// Ends a round of polling: the next round starts from the first running
    /// download. Gives whether every download has finished.
    pub fn end_round(&mut self) -> (done: bool)
        ensures
            done == (old(self)@.finished == old(self)@.number),
            final(self)@ == (DownloadPollView {
                number: old(self)@.number,
                finished: old(self)@.finished,
                index: 0,
            }),
    {
        self.index = 0;
        self.finished == self.number
    }
}

/// The logic of an ffmpeg download.
pub struct FFMPEGInstance;

impl FFMPEGInstance {
    /// The file an episode is saved to.
    pub fn output_file(folder_location: &str, anime_title: &str, anime_episode: &str) -> (r: String)
        ensures
            r@ == output_file_of(folder_location@, anime_title@, anime_episode@),
    {
        let mut path = folder_location.to_owned();
        path.append(anime_title);
        path.append("_");
        path.append(anime_episode);
        path.append(".mkv");
        path
    }

    /// The arguments `ffmpeg` is run with.
    pub fn arguments(m3u8_url: &str, output_file: &str) -> (r: Vec<String>)
        ensures
            r.deep_view() == arguments_of(m3u8_url@, output_file@),
    {
        let mut args: Vec<String> = Vec::new();
        args.push("-hide_banner".to_owned());
        args.push("-y".to_owned());
        args.push("-i".to_owned());
        args.push(m3u8_url.to_owned());
        args.push("-c".to_owned());
        args.push("copy".to_owned());
        args.push(output_file.to_owned());
        assert(args.deep_view() =~= arguments_of(m3u8_url@, output_file@));
        args
    }

    /// What the line `line` of ffmpeg's progress output says: the end of the
    /// output where it is empty, the time fields where it holds `time=`;
    /// `None` where a line holding `time=` has no such fields
    /// (`progress_fields`).
    pub fn read_progress_line<'a>(line: &'a str) -> (r: Option<ProgressLine<'a>>)
        ensures
            match r {
                Some(ProgressLine::Finished) => line@.len() == 0,
                Some(ProgressLine::Time(fields)) => line@.len() != 0 && contains_bytes(
                    line.spec_bytes(),
                    "time=".spec_bytes(),
                ) && progress_fields(line.spec_bytes()) == Some(strs_bytes(fields@)),
                Some(ProgressLine::Other) => line@.len() != 0 && !contains_bytes(
                    line.spec_bytes(),
                    "time=".spec_bytes(),
                ),
                None => line@.len() != 0 && contains_bytes(line.spec_bytes(), "time=".spec_bytes())
                    && progress_fields(line.spec_bytes()) is None,
            },
    {
        if line.is_empty() {
            return Some(ProgressLine::Finished);
        }
        if !contains_str(line, "time=") {
            return Some(ProgressLine::Other);
        }
        proof {
            reveal_strlit("=");
            reveal_strlit(":");
        }
        let pieces = split_str(line, "=");
        assert(strs_bytes(pieces@).len() == pieces@.len());
        if pieces.len() < 6 {
            return None;
        }
        let time = match slice_range(pieces[5], 0, 8) {
            Some(time) => time,
            None => return None,
        };
        let fields = split_str(time, ":");
        assert(strs_bytes(fields@).len() == fields@.len());
        if fields.len() < 3 {
            return None;
        }
        Some(ProgressLine::Time(fields))
    }

    /// The fields of an episode's duration, split at `:`.
    pub fn duration_fields(duration: &str) -> (r: Vec<&str>)
        ensures
            strs_bytes(r@) == split_bytes(duration.spec_bytes(), ":".spec_bytes()),
    {
        proof {
            reveal_strlit(":");
        }
        split_str(duration, ":")
    }
}

} // verus!

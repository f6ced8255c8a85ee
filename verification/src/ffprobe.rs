//! Streams of a media file, as `ffprobe` reports them.
use vstd::hash_map::StringHashMap;
use vstd::prelude::*;
use crate::args;
use crate::args::{push_arg, push_pair};
use crate::error::DubsyncError;
use crate::number;
use crate::rate::FrameRate;
use crate::text;

verus! {

pub struct AudioStream {
    pub index: u32,
    pub codec_name: String,
    pub channels: u32,
    /// A number in text, such as `48000`.
    pub sample_rate: String,
    pub channel_layout: Option<String>,
    pub tags: StringHashMap<String>,
    pub disposition: StringHashMap<u8>,
}

pub struct SubtitleStream {
    pub index: u32,
    pub codec_name: String,
    pub tags: StringHashMap<String>,
    pub disposition: StringHashMap<u8>,
}

/// The frame rates of a video stream, in text.
pub struct RawVideoStream {
    pub r_frame_rate: String,
    pub avg_frame_rate: String,
}

/// The map that a list of pairs makes; of two pairs with one key the later
/// counts.
pub open spec fn map_of<V>(pairs: Seq<(String, V)>) -> Map<Seq<char>, V>
    decreases pairs.len(),
{
    if pairs.len() == 0 {
        Map::empty()
    } else {
        map_of(pairs.drop_last()).insert(pairs.last().0@, pairs.last().1)
    }
}

/// Tags or flags from their names and values.
pub fn string_map<V>(pairs: Vec<(String, V)>) -> (m: StringHashMap<V>)
    ensures
        m@ == map_of(pairs@),
{
    let mut m: StringHashMap<V> = StringHashMap::new();
    let ghost all = pairs@;
    for pair in iter: pairs
        invariant
            iter.seq() == all,
            m@ == map_of(all.take(iter.index())),
    {
        assert(all.take(iter.index() + 1).drop_last() =~= all.take(iter.index()));
        m.insert(pair.0, pair.1);
    }
    assert(all.take(all.len() as int) =~= all);
    m
}

/// The text behind a tag, if it is there.
pub open spec fn tag_of(tags: Map<Seq<char>, String>, key: Seq<char>) -> Option<Seq<char>> {
    if tags.contains_key(key) {
        Some(tags[key]@)
    } else {
        None
    }
}

/// Whether a flag is there and not zero.
pub open spec fn flag_of(flags: Map<Seq<char>, u8>, key: Seq<char>) -> bool {
    flags.contains_key(key) && flags[key] != 0
}

fn get_tag<'a>(tags: &'a StringHashMap<String>, key: &str) -> (r: Option<&'a str>)
    ensures
        args::opt_str_view(r) == tag_of(tags@, key@),
{
    match tags.get(key) {
        Some(s) => Some(s.as_str()),
        None => None,
    }
}

fn get_flag(flags: &StringHashMap<u8>, key: &str) -> (r: bool)
    ensures
        r == flag_of(flags@, key@),
{
    match flags.get(key) {
        Some(v) => *v != 0,
        None => false,
    }
}

/// `s` with blanks behind it, up to `width` characters.
pub open spec fn pad_right(s: Seq<char>, width: nat) -> Seq<char> {
    if s.len() >= width {
        s
    } else {
        s + Seq::new((width - s.len()) as nat, |i: int| ' ')
    }
}

/// `s` with blanks in front, up to `width` characters.
pub open spec fn pad_left(s: Seq<char>, width: nat) -> Seq<char> {
    if s.len() >= width {
        s
    } else {
        Seq::new((width - s.len()) as nat, |i: int| ' ') + s
    }
}

fn push_blanks(out: &mut String, n: usize)
    ensures
        final(out)@ == old(out)@ + Seq::new(n as nat, |i: int| ' '),
{
    let ghost start = out@;
    let mut i: usize = 0;
    while i < n
        invariant
            i <= n,
            out@ == start + Seq::new(i as nat, |k: int| ' '),
        decreases n - i,
    {
        out.push(' ');
        i += 1;
    }
}

pub fn push_right_padded(out: &mut String, s: &str, width: usize)
    ensures
        final(out)@ == old(out)@ + pad_right(s@, width as nat),
{
    let ghost start = out@;
    let n: usize = s.unicode_len();
    out.append(s);
    if n < width {
        push_blanks(out, width - n);
    }
    assert(out@ =~= start + pad_right(s@, width as nat));
}

pub fn push_left_padded(out: &mut String, s: &str, width: usize)
    ensures
        final(out)@ == old(out)@ + pad_left(s@, width as nat),
{
    let ghost start = out@;
    let n: usize = s.unicode_len();
    if n < width {
        push_blanks(out, width - n);
    }
    out.append(s);
    assert(out@ =~= start + pad_left(s@, width as nat));
}

impl AudioStream {
    /// The line that a stream is listed with: number, codec, layout, rate,
    /// language, a star if it is the default, and the title if it has one.
    pub open spec fn label(&self) -> Seq<char> {
        let lang = match tag_of(self.tags@, "language"@) {
            Some(l) => l,
            None => "und"@,
        };
        let title = match tag_of(self.tags@, "title"@) {
            Some(t) => t,
            None => ""@,
        };
        let layout = match self.channel_layout {
            Some(l) => l@,
            None => text::decimal(self.channels as nat) + "ch"@,
        };
        "#"@ + pad_right(text::decimal(self.index as nat), 3) + " "@ + pad_right(
            self.codec_name@,
            8,
        ) + " "@ + pad_right(layout, 10) + " "@ + pad_left(self.sample_rate@, 6) + "Hz  ["@ + lang
            + "]"@ + (if flag_of(self.disposition@, "default"@) {
            " *"@
        } else {
            ""@
        }) + (if title.len() == 0 {
            ""@
        } else {
            "  \""@ + title + "\""@
        })
    }

    pub fn language(&self) -> (r: Option<&str>)
        ensures
            args::opt_str_view(r) == tag_of(self.tags@, "language"@),
    {
        get_tag(&self.tags, "language")
    }

    pub fn title(&self) -> (r: Option<&str>)
        ensures
            args::opt_str_view(r) == tag_of(self.tags@, "title"@),
    {
        get_tag(&self.tags, "title")
    }

    pub fn is_default(&self) -> (r: bool)
        ensures
            r == flag_of(self.disposition@, "default"@),
    {
        get_flag(&self.disposition, "default")
    }

    /// Single-line label for lists.
    pub fn display_label(&self) -> (r: String)
        ensures
            r@ == self.label(),
    {
        let mut index = String::new();
        text::push_decimal(&mut index, self.index as u64);
        assert(index@ =~= text::decimal(self.index as nat));
        let layout = match &self.channel_layout {
            Some(l) => l.clone(),
            None => {
                let mut l = String::new();
                text::push_decimal(&mut l, self.channels as u64);
                l.append("ch");
                assert(l@ =~= text::decimal(self.channels as nat) + "ch"@);
                l
            },
        };
        let mut out = String::from_str("#");
        push_right_padded(&mut out, index.as_str(), 3);
        out.append(" ");
        push_right_padded(&mut out, self.codec_name.as_str(), 8);
        out.append(" ");
        push_right_padded(&mut out, layout.as_str(), 10);
        out.append(" ");
        push_left_padded(&mut out, self.sample_rate.as_str(), 6);
        out.append("Hz  [");
        match self.language() {
            Some(l) => {
                out.append(l);
            },
            None => {
                out.append("und");
            },
        }
        out.append("]");
        if self.is_default() {
            out.append(" *");
        } else {
            out.append("");
        }
        match self.title() {
            Some(t) => {
                if t.is_empty() {
                    out.append("");
                } else {
                    let mut quoted = String::from_str("  \"");
                    quoted.append(t);
                    quoted.append("\"");
                    out.append(quoted.as_str());
                }
            },
            None => {
                proof {
                    reveal_strlit("");
                }
                out.append("");
            },
        }
        out
    }
}

/// The codecs that store subtitles as images.
pub open spec fn image_codec(codec: Seq<char>) -> bool {
    codec == "hdmv_pgs_subtitle"@ || codec == "dvd_subtitle"@ || codec == "dvb_subtitle"@
}

/// Compares two texts.
pub fn same_text(a: &str, b: &str) -> (r: bool)
    ensures
        r == (a@ == b@),
{
    let x = String::from_str(a);
    let y = String::from_str(b);
    x == y
}

impl SubtitleStream {
    pub fn language(&self) -> (r: Option<&str>)
        ensures
            args::opt_str_view(r) == tag_of(self.tags@, "language"@),
    {
        get_tag(&self.tags, "language")
    }

    pub fn title(&self) -> (r: Option<&str>)
        ensures
            args::opt_str_view(r) == tag_of(self.tags@, "title"@),
    {
        get_tag(&self.tags, "title")
    }

    pub fn is_forced(&self) -> (r: bool)
        ensures
            r == flag_of(self.disposition@, "forced"@),
    {
        get_flag(&self.disposition, "forced")
    }

    pub fn is_default(&self) -> (r: bool)
        ensures
            r == flag_of(self.disposition@, "default"@),
    {
        get_flag(&self.disposition, "default")
    }

    /// True for codecs that store subtitles as bitmap images; these cannot be
    /// time-shifted as text.
    pub fn is_image_based(&self) -> (r: bool)
        ensures
            r == image_codec(self.codec_name@),
    {
        same_text(self.codec_name.as_str(), "hdmv_pgs_subtitle") || same_text(
            self.codec_name.as_str(),
            "dvd_subtitle",
        ) || same_text(self.codec_name.as_str(), "dvb_subtitle")
    }
}

/// The tags of a subtitle stream in square brackets, if it has any.
pub open spec fn tag_list(forced: bool, default: bool, image: bool) -> Seq<char> {
    if forced && default && image {
        " [forced,default,image]"@
    } else if forced && default {
        " [forced,default]"@
    } else if forced && image {
        " [forced,image]"@
    } else if default && image {
        " [default,image]"@
    } else if forced {
        " [forced]"@
    } else if default {
        " [default]"@
    } else if image {
        " [image]"@
    } else {
        ""@
    }
}

fn tag_words(forced: bool, default: bool, image: bool) -> (r: &'static str)
    ensures
        r@ == tag_list(forced, default, image),
{
    if forced && default && image {
        " [forced,default,image]"
    } else if forced && default {
        " [forced,default]"
    } else if forced && image {
        " [forced,image]"
    } else if default && image {
        " [default,image]"
    } else if forced {
        " [forced]"
    } else if default {
        " [default]"
    } else if image {
        " [image]"
    } else {
        ""
    }
}

impl SubtitleStream {
    /// The line that a subtitle stream is listed with: number, codec, language,
    /// tags, and the title if it has one.
    pub open spec fn label(&self) -> Seq<char> {
        let lang = match tag_of(self.tags@, "language"@) {
            Some(l) => l,
            None => "und"@,
        };
        let title = match tag_of(self.tags@, "title"@) {
            Some(t) => t,
            None => ""@,
        };
        "#"@ + pad_right(text::decimal(self.index as nat), 3) + " "@ + pad_right(
            self.codec_name@,
            8,
        ) + " ["@ + lang + "]"@ + tag_list(
            flag_of(self.disposition@, "forced"@),
            flag_of(self.disposition@, "default"@),
            image_codec(self.codec_name@),
        ) + (if title.len() == 0 {
            ""@
        } else {
            "  \""@ + title + "\""@
        })
    }
}

/// Single-line label of a subtitle stream for lists.
pub fn sub_label(s: &SubtitleStream) -> (r: String)
    ensures
        r@ == s.label(),
{
    let mut index = String::new();
    text::push_decimal(&mut index, s.index as u64);
    assert(index@ =~= text::decimal(s.index as nat));
    let mut out = String::from_str("#");
    push_right_padded(&mut out, index.as_str(), 3);
    out.append(" ");
    push_right_padded(&mut out, s.codec_name.as_str(), 8);
    out.append(" [");
    match s.language() {
        Some(l) => {
            out.append(l);
        },
        None => {
            out.append("und");
        },
    }
    out.append("]");
    out.append(tag_words(s.is_forced(), s.is_default(), s.is_image_based()));
    match s.title() {
        Some(t) => {
            if t.is_empty() {
                out.append("");
            } else {
                let mut quoted = String::from_str("  \"");
                quoted.append(t);
                quoted.append("\"");
                out.append(quoted.as_str());
            }
        },
        None => {
            proof {
                reveal_strlit("");
            }
            out.append("");
        },
    }
    out
}

/// The arguments of a probe for the streams that `select` names.
pub open spec fn probe_arguments(select: Seq<char>, path: Seq<char>) -> Seq<Seq<char>> {
    seq![
        "-v"@,
        "quiet"@,
        "-print_format"@,
        "json"@,
        "-show_streams"@,
        "-select_streams"@,
        select,
        path,
    ]
}

/// Builds the arguments of a probe: `a` selects audio, `s` subtitles, `v:0` the
/// first video stream.
pub fn probe_args(select: &str, path: &str) -> (r: Vec<String>)
    ensures
        args::views(r@) == probe_arguments(select@, path@),
{
    let mut r: Vec<String> = Vec::new();
    push_pair(&mut r, "-v", "quiet");
    push_pair(&mut r, "-print_format", "json");
    push_arg(&mut r, "-show_streams");
    push_pair(&mut r, "-select_streams", select);
    push_arg(&mut r, path);
    assert(args::views(r@) =~= probe_arguments(select@, path@));
    r
}

/// What a finished probe comes to before its output is read.
pub fn probe_outcome(path: &str, success: bool, stderr: &str) -> (r: Result<(), DubsyncError>)
    ensures
        match r {
            Ok(_) => success,
            Err(e) => !success && (e matches DubsyncError::FfprobeFailed { path: p, stderr: s } && p@
                == path@ && s@ == stderr@),
        },
{
    if success {
        Ok(())
    } else {
        Err(
            DubsyncError::FfprobeFailed {
                path: String::from_str(path),
                stderr: String::from_str(stderr),
            },
        )
    }
}

/// The audio streams of a file, which has to have one.
pub fn list_audio_streams(path: &str, streams: Vec<AudioStream>) -> (r: Result<
    Vec<AudioStream>,
    DubsyncError,
>)
    ensures
        match r {
            Ok(s) => streams@.len() > 0 && s@ == streams@,
            Err(e) => streams@.len() == 0 && (e matches DubsyncError::NoAudioStreams(p) && p@
                == path@),
        },
{
    if streams.len() == 0 {
        Err(DubsyncError::NoAudioStreams(String::from_str(path)))
    } else {
        Ok(streams)
    }
}

/// The number one.
pub open spec fn one() -> number::DecimalView {
    number::DecimalView { negative: false, digits: seq!['1'], exponent: 0 }
}

/// The first digit of a number that a probe may tell stands at this place
/// before the point at most.
pub const ORDER_MOST: i128 = 309;

/// And at this place at least.
pub const ORDER_LEAST: i128 = -323;

pub open spec fn order_fits(order: int) -> bool {
    ORDER_LEAST <= order <= ORDER_MOST
}

/// The positive fraction of two numbers.
pub open spec fn fraction_of(n: number::DecimalView, d: number::DecimalView) -> Option<FrameRate> {
    let (num, den) = (number::leading_value(n), number::leading_value(d));
    let (p, q) = (number::order(n), number::order(d));
    if num == 0 || den == 0 || n.negative != d.negative {
        None
    } else if !order_fits(p) || !order_fits(q) || !order_fits(p - q) {
        None
    } else {
        Some(
            FrameRate {
                num: num as u128,
                den: den as u128,
                tens: (number::leading_tens(n) - number::leading_tens(d)) as i32,
            },
        )
    }
}

/// The frame rate that `p/q`, or a bare `p`, stands for.
pub open spec fn rational_of(s: Seq<char>) -> Option<FrameRate> {
    let t = text::trim(s);
    let cut = text::next_index(t, '/', 0);
    let num = number::decimal_of(text::trim(t.take(cut)));
    let den = if cut < t.len() {
        number::decimal_of(text::trim(t.skip(cut + 1)))
    } else {
        Some(one())
    };
    match (num, den) {
        (Some(n), Some(d)) => fraction_of(n, d),
        _ => None,
    }
}

/// Parses a `p/q` frame rate. `None` for malformed text, for `0/0`, which
/// stands for an unknown rate, and for rates that are not positive.
pub fn parse_rational(s: &str) -> (r: Option<FrameRate>)
    ensures
        r == rational_of(s@),
        r matches Some(f) ==> f.wf(),
{
    let chars = text::chars_of(s);
    let t = text::trim_chars(&chars);
    let cut: usize = text::find_char(&t, '/', 0);
    let num_text = text::trim_chars(&text::copy_range(&t, 0, cut));
    assert(t@.subrange(0, cut as int) =~= t@.take(cut as int));
    let n: number::Decimal = match number::parse_decimal(&num_text) {
        Some(n) => n,
        None => {
            return None;
        },
    };
    let d: number::Decimal = if cut < t.len() {
        let den_text = text::trim_chars(&text::copy_range(&t, cut + 1, t.len()));
        assert(t@.subrange(cut + 1, t@.len() as int) =~= t@.skip(cut + 1));
        match number::parse_decimal(&den_text) {
            Some(d) => d,
            None => {
                return None;
            },
        }
    } else {
        let mut digits: Vec<char> = Vec::new();
        digits.push('1');
        let d = number::Decimal { negative: false, digits, exponent: 0 };
        assert(d@.digits =~= one().digits);
        d
    };
    assert(n.digits.len() <= usize::MAX && d.digits.len() <= usize::MAX);
    fraction(&n, &d)
}

fn fits(order: i128) -> (r: bool)
    ensures
        r == order_fits(order as int),
{
    ORDER_LEAST <= order && order <= ORDER_MOST
}

/// The positive fraction of two numbers.
fn fraction(n: &number::Decimal, d: &number::Decimal) -> (r: Option<FrameRate>)
    requires
        number::all_digits(n.digits@),
        number::all_digits(d.digits@),
        i64::MIN * 1000 <= n.exponent <= i64::MAX,
        i64::MIN * 1000 <= d.exponent <= i64::MAX,
    ensures
        r == fraction_of(n@, d@),
        r matches Some(f) ==> f.wf(),
{
    let a: number::Leading = number::leading(n);
    let b: number::Leading = number::leading(d);
    if a.value == 0 || b.value == 0 || n.negative != d.negative {
        return None;
    }
    if !fits(a.order) || !fits(b.order) || !fits(a.order - b.order) {
        return None;
    }
    proof {
        number::lemma_zero_run(n@.digits, 0);
        number::lemma_zero_run(d@.digits, 0);
    }
    Some(FrameRate { num: a.value, den: b.value, tens: (a.tens - b.tens) as i32 })
}

/// The frame rate of a first video stream.
pub open spec fn rate_of(streams: Seq<RawVideoStream>) -> Option<FrameRate> {
    if streams.len() == 0 {
        None
    } else {
        match rational_of(streams[0].r_frame_rate@) {
            Some(f) => Some(f),
            None => rational_of(streams[0].avg_frame_rate@),
        }
    }
}

/// The frame rate of the first video stream, if there is one: the rate of the
/// container, or the average where that is unknown.
pub fn video_fps(streams: &Vec<RawVideoStream>) -> (r: Option<FrameRate>)
    ensures
        r == rate_of(streams@),
        r matches Some(f) ==> f.wf(),
{
    if streams.len() == 0 {
        return None;
    }
    match parse_rational(streams[0].r_frame_rate.as_str()) {
        Some(f) => Some(f),
        None => parse_rational(streams[0].avg_frame_rate.as_str()),
    }
}

/// The indices of streams.
pub open spec fn indices(streams: Seq<AudioStream>) -> Seq<u32> {
    Seq::new(streams.len(), |i: int| streams[i].index)
}

/// The first of the requested indices that is not available.
pub open spec fn first_missing(available: Seq<u32>, requested: Seq<u32>) -> Option<u32>
    decreases requested.len(),
{
    if requested.len() == 0 {
        None
    } else if !available.contains(requested[0]) {
        Some(requested[0])
    } else {
        first_missing(available, requested.skip(1))
    }
}

/// Checks that every requested stream index exists. The first that does not is
/// reported together with those that do.
pub fn ensure_indices_exist(streams: &Vec<AudioStream>, requested: &Vec<u32>) -> (r: Result<
    (),
    DubsyncError,
>)
    ensures
        match r {
            Ok(_) => first_missing(indices(streams@), requested@) is None,
            Err(e) => {
                &&& e matches DubsyncError::InvalidStreamIndex { index, available }
                &&& available@ == indices(streams@)
                &&& first_missing(indices(streams@), requested@) == Some(index)
            },
        },
{
    let ghost all = indices(streams@);
    let mut available: Vec<u32> = Vec::new();
    let mut i: usize = 0;
    while i < streams.len()
        invariant
            i <= streams@.len(),
            all == indices(streams@),
            available@ == all.take(i as int),
        decreases streams@.len() - i,
    {
        available.push(streams[i].index);
        i += 1;
        assert(available@ =~= all.take(i as int));
    }
    assert(available@ =~= all);
    let mut k: usize = 0;
    assert(requested@.skip(0) =~= requested@);
    while k < requested.len()
        invariant
            k <= requested@.len(),
            available@ == all,
            all == indices(streams@),
            first_missing(all, requested@) == first_missing(all, requested@.skip(k as int)),
        decreases requested@.len() - k,
    {
        let index: u32 = requested[k];
        if !contains_u32(&available, index) {
            return Err(DubsyncError::InvalidStreamIndex { index, available });
        }
        assert(requested@.skip(k as int).skip(1) =~= requested@.skip(k + 1));
        k += 1;
    }
    Ok(())
}

/// Every requested index is available exactly if none is missing.
pub proof fn law_first_missing(available: Seq<u32>, requested: Seq<u32>)
    ensures
        first_missing(available, requested) is None <==> forall|k: int|
            0 <= k < requested.len() ==> available.contains(#[trigger] requested[k]),
    decreases requested.len(),
{
    if requested.len() > 0 {
        let rest = requested.skip(1);
        law_first_missing(available, rest);
        if first_missing(available, requested) is None {
            assert forall|k: int| 0 <= k < requested.len() implies available.contains(
                #[trigger] requested[k],
            ) by {
                if k > 0 {
                    assert(rest[k - 1] == requested[k]);
                }
            }
        } else if available.contains(requested[0]) {
            let k = choose|k: int|
                0 <= k < rest.len() && !available.contains(#[trigger] rest[k]);
            assert(rest[k] == requested[k + 1]);
        }
    }
}

pub fn contains_u32(v: &Vec<u32>, x: u32) -> (r: bool)
    ensures
        r == v@.contains(x),
{
    let mut i: usize = 0;
    while i < v.len()
        invariant
            i <= v@.len(),
            forall|k: int| 0 <= k < i ==> #[trigger] v@[k] != x,
        decreases v@.len() - i,
    {
        if v[i] == x {
            return true;
        }
        i += 1;
    }
    false
}

/// A text of digits is read as those digits.
proof fn lemma_plain_digits(a: Seq<char>)
    requires
        number::all_digits(a),
        a.len() > 0,
    ensures
        number::decimal_of(a) == Some(
            number::DecimalView { negative: false, digits: a, exponent: 0 },
        ),
{
    assert(number::is_digit(a[0]));
    number::lemma_digit_run_is(a, 0, a.len() as int);
    assert(a.subrange(0, a.len() as int) + Seq::<char>::empty() =~= a);
}

/// The first digits of a whole number of at most 38 digits are all it has.
proof fn lemma_whole_number(n: nat)
    requires
        0 < n < vstd::arithmetic::power::pow(10, 38),
    ensures
        ({
            let d = number::DecimalView { negative: false, digits: text::decimal(n), exponent: 0 };
            &&& number::leading_value(d) == n
            &&& number::leading_tens(d) == 0
            &&& 1 <= number::order(d) <= 38
        }),
        n <= u128::MAX,
{
    let s = text::decimal(n);
    number::law_digits_stand_for_their_number(Seq::empty(), 0, n);
    number::lemma_decimal(n);
    number::lemma_decimal_len(n, 38);
    assert(number::zero_run(s, 0) == 0);
    assert(s.subrange(0, s.len() as int) =~= s);
    reveal_with_fuel(vstd::arithmetic::power::pow, 39);
}

/// A rate that is told as one whole number over another is exactly that
/// fraction; one that is told as a bare number is that number.
pub proof fn law_rates_are_read(p: nat, q: nat)
    requires
        0 < p < vstd::arithmetic::power::pow(10, 38),
        0 < q < vstd::arithmetic::power::pow(10, 38),
    ensures
        rational_of(text::decimal(p) + seq!['/'] + text::decimal(q)) matches Some(f) && f.num == p
            && f.den == q && f.tens == 0,
        rational_of(text::decimal(p)) matches Some(f) && f.num == p && f.den == 1 && f.tens == 0,
        rational_of(text::decimal(p) + seq!['/'] + text::decimal(0)) is None,
        rational_of(text::decimal(0) + seq!['/'] + text::decimal(q)) is None,
{
    lemma_whole_number(p);
    lemma_whole_number(q);
    lemma_one();
    lemma_rational(p, q);
    lemma_rational(p, 0);
    lemma_rational(0, q);
    let z = text::decimal(0);
    assert(z =~= seq!['0']);
    assert(number::zero_run(z, 0) == 1) by {
        assert(number::zero_run(z, 1) == 1);
    }
    assert(z.subrange(1, 1) =~= Seq::<char>::empty());
    let s = text::decimal(p);
    number::lemma_decimal(p);
    lemma_digits_have_no_edges(s);
    text::lemma_next_index_is(s, '/', 0, s.len() as int);
    assert(s.take(s.len() as int) =~= s);
    lemma_plain_digits(s);
}

proof fn lemma_one()
    ensures
        number::leading_value(one()) == 1,
        number::leading_tens(one()) == 0,
        number::order(one()) == 1,
{
    let d = one().digits;
    assert(number::zero_run(d, 0) == 0);
    assert(d.subrange(0, 1) =~= d);
    assert(d.drop_last() =~= Seq::<char>::empty());
    assert(number::digits_value(d.drop_last()) == 0);
    assert(d.last() == '1');
}

/// Digits are neither white space nor a bar.
proof fn lemma_digits_have_no_edges(s: Seq<char>)
    requires
        number::all_digits(s),
        s.len() > 0,
    ensures
        text::trim(s) == s,
        forall|k: int| 0 <= k < s.len() ==> #[trigger] s[k] != '/',
{
    assert(number::is_digit(s[0]));
    assert(number::is_digit(s[s.len() - 1]));
    text::lemma_trim_id(s);
    assert forall|k: int| 0 <= k < s.len() implies #[trigger] s[k] != '/' by {
        assert(number::is_digit(s[k]));
    }
}

proof fn lemma_rational(p: nat, q: nat)
    ensures
        rational_of(text::decimal(p) + seq!['/'] + text::decimal(q)) == fraction_of(
            number::DecimalView { negative: false, digits: text::decimal(p), exponent: 0 },
            number::DecimalView { negative: false, digits: text::decimal(q), exponent: 0 },
        ),
{
    let a = text::decimal(p);
    let b = text::decimal(q);
    let s = a + seq!['/'] + b;
    number::lemma_decimal(p);
    number::lemma_decimal(q);
    lemma_digits_have_no_edges(a);
    lemma_digits_have_no_edges(b);
    assert(number::is_digit(a[0]) && number::is_digit(b[b.len() - 1]));
    assert(s[0] == a[0] && s.last() == b[b.len() - 1]);
    text::lemma_trim_id(s);
    let n = a.len() as int;
    assert(s[n] == '/');
    assert forall|k: int| 0 <= k < n implies #[trigger] s[k] != '/' by {
        assert(s[k] == a[k]);
    }
    text::lemma_next_index_is(s, '/', 0, n);
    assert(s.take(n) =~= a);
    assert(s.skip(n + 1) =~= b);
    lemma_plain_digits(a);
    lemma_plain_digits(b);
}

/// The first requested index that is missing is missing, and those before it
/// are not.
pub proof fn law_missing_index(available: Seq<u32>, requested: Seq<u32>)
    ensures
        first_missing(available, requested) matches Some(t) ==> exists|k: int|
            0 <= k < requested.len() && #[trigger] requested[k] == t && !available.contains(t)
                && forall|j: int| 0 <= j < k ==> available.contains(#[trigger] requested[j]),
    decreases requested.len(),
{
    if requested.len() > 0 && available.contains(requested[0]) {
        let rest = requested.skip(1);
        law_missing_index(available, rest);
        if let Some(t) = first_missing(available, requested) {
            let k = choose|k: int|
                0 <= k < rest.len() && #[trigger] rest[k] == t && !available.contains(t)
                    && forall|j: int| 0 <= j < k ==> available.contains(#[trigger] rest[j]);
            assert(requested[k + 1] == t);
            assert forall|j: int| 0 <= j < k + 1 implies available.contains(
                #[trigger] requested[j],
            ) by {
                if j > 0 {
                    assert(rest[j - 1] == requested[j]);
                }
            }
        }
    } else if requested.len() > 0 {
        assert(requested[0] == requested[0]);
    }
}

/// Padding adds blanks on one side, up to the width.
pub proof fn law_padding(s: Seq<char>, width: nat)
    ensures
        ({
            let l = pad_left(s, width);
            let r = pad_right(s, width);
            &&& l.len() == r.len() && l.len() >= width && l.len() >= s.len()
            &&& l.len() == width || l.len() == s.len()
            &&& r.take(s.len() as int) == s
            &&& l.skip(l.len() - s.len()) == s
            &&& forall|i: int| s.len() <= i < r.len() ==> #[trigger] r[i] == ' '
            &&& forall|i: int| 0 <= i < l.len() - s.len() ==> #[trigger] l[i] == ' '
        }),
{
    let l = pad_left(s, width);
    let r = pad_right(s, width);
    assert(r.take(s.len() as int) =~= s);
    assert(l.skip(l.len() - s.len()) =~= s);
}

/// The rate of a file is that of its first video stream, and the average only
/// where the rate itself cannot be read.
pub proof fn law_rate_of_a_file(streams: Seq<RawVideoStream>)
    ensures
        streams.len() == 0 ==> rate_of(streams) is None,
        streams.len() > 0 && rational_of(streams[0].r_frame_rate@) is Some ==> rate_of(streams)
            == rational_of(streams[0].r_frame_rate@),
        streams.len() > 0 && rational_of(streams[0].r_frame_rate@) is None ==> rate_of(streams)
            == rational_of(streams[0].avg_frame_rate@),
{
}

/// The marks of a subtitle track are those that it has, in a fixed order.
pub proof fn law_marks(forced: bool, default: bool, image: bool)
    ensures
        ({
            let n: int = (if forced {
                1int
            } else {
                0
            }) + (if default {
                1int
            } else {
                0
            }) + (if image {
                1int
            } else {
                0
            });
            let t = tag_list(forced, default, image);
            &&& n == 0 ==> t == ""@
            &&& n == 1 && forced ==> t == " [forced]"@
            &&& n == 1 && default ==> t == " [default]"@
            &&& n == 1 && image ==> t == " [image]"@
            &&& n == 2 && !image ==> t == " [forced,default]"@
            &&& n == 2 && !default ==> t == " [forced,image]"@
            &&& n == 2 && !forced ==> t == " [default,image]"@
            &&& n == 3 ==> t == " [forced,default,image]"@
        }),
{
}

} // verus!

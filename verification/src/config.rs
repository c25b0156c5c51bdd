//! Configuration, and how it follows from the command line.

use crate::numeral;
use crate::numeral::{numbered, parse_unsigned};
use crate::text;
use crate::text::{chars_of, split_char, split_whitespace};
use vstd::prelude::*;

verus! {

/// The command line.
#[derive(Debug, Clone)]
pub struct Cli {
    pub command: Commands,
}

/// What the program is asked to do.
#[derive(Debug, Clone)]
pub enum Commands {
    /// Run one display.
    Start {
        /// Display, such as ":100".
        display: String,
        /// Resolution, such as "1920x1080x24".
        resolution: String,
        rfb_port: u16,
        ws_port: Option<u16>,
        token: Option<String>,
        /// "hybrid", "wayland" or "x11".
        mode: String,
        metrics_port: Option<u16>,
        manage_x11: bool,
        attach: bool,
        xvfb_path: String,
        /// Arguments for the X server, separated by white space.
        xvfb_args: Option<String>,
        fps: u32,
    },
    /// Run the supervisor of several displays.
    Daemon { base_vnc_port: u16, control_socket: String, metrics_port: Option<u16> },
}

/// Everything that one display is run with.
#[derive(Debug, Clone)]
pub struct AppConfig {
    pub display_num: u32,
    pub width: u32,
    pub height: u32,
    pub depth: u8,
    pub rfb_port: u16,
    pub ws_port: Option<u16>,
    pub auth_token: Option<String>,
    pub mode: String,
    pub base_vnc_port: u16,
    pub control_socket: String,
    pub metrics_port: Option<u16>,
    pub enable_metrics: bool,
    pub manage_x11: bool,
    pub attach: bool,
    pub xvfb_path: String,
    pub xvfb_args: Option<Vec<String>>,
    pub fps: u32,
}

impl Default for AppConfig {
    fn default() -> (r: Self)
        ensures
            r.display_num == 100,
            r.width == 1920,
            r.height == 1080,
            r.depth == 24,
            r.rfb_port == 5900,
            r.ws_port == Some(7861u16),
            r.auth_token == None::<String>,
            r.mode@ == "hybrid"@,
            r.base_vnc_port == 5900,
            r.control_socket@ == "/tmp/clm-vdisplay.sock"@,
            r.metrics_port == None::<u16>,
            !r.enable_metrics,
            r.manage_x11,
            !r.attach,
            r.xvfb_path@ == "Xvfb"@,
            r.xvfb_args == None::<Vec<String>>,
            r.fps == 60,
    {
        AppConfig {
            display_num: 100,
            width: 1920,
            height: 1080,
            depth: 24,
            rfb_port: 5900,
            ws_port: Some(7861),
            auth_token: None,
            mode: "hybrid".to_owned(),
            base_vnc_port: 5900,
            control_socket: "/tmp/clm-vdisplay.sock".to_owned(),
            metrics_port: None,
            enable_metrics: false,
            manage_x11: true,
            attach: false,
            xvfb_path: "Xvfb".to_owned(),
            xvfb_args: None,
            fps: 60,
        }
    }
}

/// A text without the colons at its start.
pub open spec fn without_colons(s: Seq<char>) -> Seq<char>
    decreases s.len(),
{
    if s.len() > 0 && s[0] == ':' {
        without_colons(s.skip(1))
    } else {
        s
    }
}

/// The display that a text such as ":100" names; 100 where it names none.
pub open spec fn display_num_of(s: Seq<char>) -> nat {
    match numeral::parsed(without_colons(s), u32::MAX as nat) {
        Some(n) => n,
        None => 100,
    }
}

/// A positive number in part `i`, or `default` where there is none.
pub open spec fn part_or(parts: Seq<Seq<char>>, i: int, max: nat, default: nat) -> nat {
    if i < parts.len() {
        match numeral::parsed(parts[i], max) {
            Some(n) => if n > 0 {
                n
            } else {
                default
            },
            None => default,
        }
    } else {
        default
    }
}

/// Width, height and depth in a text such as "1920x1080x24". A part that is
/// missing, zero or no number of its size takes the value from there.
pub open spec fn resolution_of(s: Seq<char>) -> (nat, nat, nat) {
    let p = text::parts(s, 'x');
    (
        part_or(p, 0, u32::MAX as nat, 1920),
        part_or(p, 1, u32::MAX as nat, 1080),
        part_or(p, 2, u8::MAX as nat, 24),
    )
}

fn positive_part(parts: &Vec<Vec<char>>, i: usize, max: u32, default: u32) -> (r: u32)
    requires
        default <= max,
    ensures
        r == part_or(text::pieces(parts@), i as int, max as nat, default as nat),
        r <= max,
{
    if i < parts.len() {
        assert(text::pieces(parts@)[i as int] == parts@[i as int]@);
        match parse_unsigned(parts[i].as_slice(), max) {
            Some(n) => if n > 0 {
                n
            } else {
                default
            },
            None => default,
        }
    } else {
        default
    }
}

/// The words of an optional text.
pub open spec fn optional_words(s: Option<String>) -> Option<Seq<Seq<char>>> {
    match s {
        Some(t) => Some(text::words(t@)),
        None => None,
    }
}

/// The texts in an optional vector.
pub open spec fn optional_texts(v: Option<Vec<String>>) -> Option<Seq<Seq<char>>> {
    match v {
        Some(t) => Some(text::texts(t@)),
        None => None,
    }
}

impl AppConfig {
    /// The configuration for the arguments that matter most; the others take
    /// their usual values.
    pub fn from_start_args(
        display_str: &str,
        resolution_str: &str,
        rfb_port: u16,
        ws_port: Option<u16>,
        token: Option<String>,
        mode: &str,
        metrics_port: Option<u16>,
    ) -> (r: Self)
        ensures
            r.display_num == display_num_of(display_str@),
            (r.width as nat, r.height as nat, r.depth as nat) == resolution_of(resolution_str@),
            r.rfb_port == rfb_port,
            r.ws_port == ws_port,
            r.auth_token == token,
            r.mode@ == mode@,
            r.base_vnc_port == 5900,
            r.control_socket@ == "/tmp/clm-vdisplay-"@ + numeral::decimal(
                display_num_of(display_str@),
            ) + ".sock"@,
            r.metrics_port == metrics_port,
            r.enable_metrics == metrics_port is Some,
            r.manage_x11,
            !r.attach,
            r.xvfb_path@ == "Xvfb"@,
            r.xvfb_args == None::<Vec<String>>,
            r.fps == 60,
    {
        Self::from_start_args_full(
            display_str,
            resolution_str,
            rfb_port,
            ws_port,
            token,
            mode,
            metrics_port,
            false,
            false,
            "Xvfb".to_owned(),
            None,
            60,
        )
    }

    /// The configuration for all arguments. The X server is managed unless an
    /// existing one is to be attached to, and a rate of zero stands for 60.
    pub fn from_start_args_full(
        display_str: &str,
        resolution_str: &str,
        rfb_port: u16,
        ws_port: Option<u16>,
        token: Option<String>,
        mode: &str,
        metrics_port: Option<u16>,
        manage_x11: bool,
        attach: bool,
        xvfb_path: String,
        xvfb_args: Option<String>,
        fps: u32,
    ) -> (r: Self)
        ensures
            r.display_num == display_num_of(display_str@),
            (r.width as nat, r.height as nat, r.depth as nat) == resolution_of(resolution_str@),
            r.rfb_port == rfb_port,
            r.ws_port == ws_port,
            r.auth_token == token,
            r.mode@ == mode@,
            r.base_vnc_port == 5900,
            r.control_socket@ == "/tmp/clm-vdisplay-"@ + numeral::decimal(
                display_num_of(display_str@),
            ) + ".sock"@,
            r.metrics_port == metrics_port,
            r.enable_metrics == metrics_port is Some,
            r.manage_x11 == !attach,
            r.attach == attach,
            r.xvfb_path == xvfb_path,
            optional_texts(r.xvfb_args) == optional_words(xvfb_args),
            r.fps == if fps == 0 {
                60
            } else {
                fps
            },
    {
        let display_num: u32 = Self::parse_display_num(display_str);
        let (width, height, depth) = Self::parse_resolution(resolution_str);
        let enable_metrics = metrics_port.is_some();
        let parsed_args = match xvfb_args {
            Some(s) => Some(split_whitespace(s.as_str())),
            None => None,
        };
        AppConfig {
            display_num,
            width,
            height,
            depth,
            rfb_port,
            ws_port,
            auth_token: token,
            mode: mode.to_owned(),
            base_vnc_port: 5900,
            control_socket: numbered("/tmp/clm-vdisplay-", display_num as u64, ".sock"),
            metrics_port,
            enable_metrics,
            manage_x11: !attach,
            attach,
            xvfb_path,
            xvfb_args: parsed_args,
            fps: if fps == 0 {
                60
            } else {
                fps
            },
        }
    }

    /// The display that a text names.
    pub fn parse_display_num(disp: &str) -> (r: u32)
        ensures
            r == display_num_of(disp@),
    {
        let chars = chars_of(disp);
        let size: usize = chars.len();
        let mut start: usize = 0;
        assert(chars@.skip(0) =~= chars@);
        while start < size && chars[start] == ':'
            invariant
                start <= size,
                size == chars@.len(),
                chars@ == disp@,
                without_colons(disp@) == without_colons(chars@.skip(start as int)),
            decreases size - start,
        {
            assert(chars@.skip(start as int).skip(1) =~= chars@.skip(start + 1));
            start = start + 1;
        }
        let clean = vstd::slice::slice_subrange(chars.as_slice(), start, size);
        assert(clean@ =~= chars@.skip(start as int));
        match parse_unsigned(clean, u32::MAX) {
            Some(n) => n,
            None => 100,
        }
    }

    /// Width, height and depth in a text.
    pub fn parse_resolution(res: &str) -> (r: (u32, u32, u8))
        ensures
            (r.0 as nat, r.1 as nat, r.2 as nat) == resolution_of(res@),
    {
        let parts = split_char(res, 'x');
        let width: u32 = positive_part(&parts, 0, u32::MAX, 1920);
        let height: u32 = positive_part(&parts, 1, u32::MAX, 1080);
        let depth: u32 = positive_part(&parts, 2, 255, 24);
        (width, height, depth as u8)
    }
}

/// No part of a resolution is ever zero.
pub proof fn law_resolution_is_positive(s: Seq<char>)
    ensures
        resolution_of(s).0 > 0,
        resolution_of(s).1 > 0,
        resolution_of(s).2 > 0,
{
}

/// A display written as a colon and its number is that display.
pub proof fn law_display_num_round_trip(n: u32)
    ensures
        display_num_of(seq![':'] + numeral::decimal(n as nat)) == n,
{
    let d = numeral::decimal(n as nat);
    let s = seq![':'] + d;
    assert(s.skip(1) =~= d);
    numeral::law_numeral_round_trip(n as nat, u32::MAX as nat);
    assert(numeral::is_digit(numeral::unsigned_digits(d)[0]));
    assert(without_colons(d) == d);
}

/// A resolution written as width, height and depth with an "x" between them is
/// that resolution; what is left out behind takes its usual value.
pub proof fn law_resolution_round_trip(width: u32, height: u32, depth: u8)
    requires
        0 < width,
        0 < height,
        0 < depth,
    ensures
        ({
            let w = numeral::decimal(width as nat);
            let h = numeral::decimal(height as nat);
            let d = numeral::decimal(depth as nat);
            &&& resolution_of(w + seq!['x'] + (h + seq!['x'] + d)) == (
                width as nat,
                height as nat,
                depth as nat,
            )
            &&& resolution_of(w + seq!['x'] + h) == (width as nat, height as nat, 24nat)
            &&& resolution_of(w) == (width as nat, 1080nat, 24nat)
            &&& resolution_of(Seq::empty()) == (1920nat, 1080nat, 24nat)
        }),
{
    let w = numeral::decimal(width as nat);
    let h = numeral::decimal(height as nat);
    let d = numeral::decimal(depth as nat);
    lemma_no_x(width as nat);
    lemma_no_x(height as nat);
    lemma_no_x(depth as nat);
    numeral::law_numeral_round_trip(width as nat, u32::MAX as nat);
    numeral::law_numeral_round_trip(height as nat, u32::MAX as nat);
    numeral::law_numeral_round_trip(depth as nat, u8::MAX as nat);
    text::law_parts_are_parted_by_the_character(d, 'x', Seq::empty());
    text::law_parts_are_parted_by_the_character(h, 'x', d);
    text::law_parts_are_parted_by_the_character(h, 'x', Seq::empty());
    text::law_parts_are_parted_by_the_character(w, 'x', h + seq!['x'] + d);
    text::law_parts_are_parted_by_the_character(w, 'x', h);
    text::law_parts_are_parted_by_the_character(Seq::empty(), 'x', Seq::empty());
    assert(text::parts(w + seq!['x'] + (h + seq!['x'] + d), 'x') =~= seq![w, h, d]);
    assert(text::parts(w + seq!['x'] + h, 'x') =~= seq![w, h]);
    numeral::law_what_is_no_number(Seq::empty(), u32::MAX as nat, 0);
}

proof fn lemma_no_x(n: nat)
    ensures
        forall|i: int| 0 <= i < numeral::decimal(n).len() ==> #[trigger] numeral::decimal(n)[i]
            != 'x',
{
    numeral::lemma_decimal(n);
    assert forall|i: int| 0 <= i < numeral::decimal(n).len() implies #[trigger] numeral::decimal(
        n,
    )[i] != 'x' by {
        assert(numeral::is_digit(numeral::decimal(n)[i]));
    }
}

/// What names no display is taken for display 100.
pub proof fn law_usual_display(s: Seq<char>)
    ensures
        numeral::parsed(s, u32::MAX as nat) is None && (s.len() == 0 || s[0] != ':')
            ==> display_num_of(s) == 100 && display_num_of(seq![':'] + s) == 100,
{
    assert((seq![':'] + s).skip(1) =~= s);
}

} // verus!

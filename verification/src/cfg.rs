//! The panel/sensor data model: a monitor configuration holds panels, each
//! panel an ordered list of sensors with geometry, drawing mode and
//! text-rendering parameters.
//!
//! Numeric gauge bounds are held in milli-units (the configured value times
//! 1000), so range and ratio computations are exact integer arithmetic.

use vstd::prelude::*;

verus! {

/// Orientation of a sensor graphic; for the arc and pointer modes the two
/// horizontal directions select clockwise and counter-clockwise sweeps.
#[derive(Debug, Copy, Clone, PartialEq, Eq, Structural)]
pub enum SensorDirection {
    /// Also clockwise for the arc and pointer modes.
    LeftToRight,
    /// Also counter-clockwise for the arc and pointer modes.
    RightToLeft,
    TopToBottom,
    BottomToTop,
}

/// Sensor element type.
#[derive(Debug, Copy, Clone, PartialEq, Eq, Structural)]
pub enum SensorMode {
    /// Text element.
    Text,
    /// Circular/arc progress indicator.
    Fan,
    /// Horizontal or vertical progress indicator.
    Progress,
    /// Rotating pointer/dial indicator.
    Pointer,
}

/// Horizontal alignment of a text sensor inside its box.
#[derive(Debug, Copy, Clone, PartialEq, Eq, Structural)]
pub enum TextAlign {
    Left,
    Center,
    Right,
}

impl Default for TextAlign {
    fn default() -> (r: Self)
        ensures
            r == TextAlign::Left,
    {
        TextAlign::Left
    }
}

/// Font weight of a text sensor.
#[derive(Debug, Copy, Clone, PartialEq, Eq, Structural)]
pub enum FontWeight {
    Normal,
    Bold,
}

/// Language setting of the configuration file.
#[derive(Debug, Copy, Clone, PartialEq, Eq, Structural)]
pub enum Language {
    Chinese,
    English,
    Japanese,
}

/// Operation mode of the configuration file.
#[derive(Debug, Copy, Clone, PartialEq, Eq, Structural)]
pub enum OperationMode {
    Unset,
    HighPerformance,
    Intelligent,
    PowerSaving,
    Custom30W,
    Custom20W,
    Custom10W,
}

/// The synthetic date/time sensor labels.
#[derive(Debug, Copy, Clone, PartialEq, Eq, Structural)]
pub enum TimeDateLabel {
    Year,
    Month,
    Day,
    Hour,
    Minute,
    Second,
    MDHM1,
    MDHM2,
    MD1,
    MD2,
    YMD1,
    YMD2,
    YMD3,
    YMD4,
    HMS1,
    HMS2,
    HMS3,
    HM1,
    HM2,
    HM3,
}

/// Web-app user login of the configuration file; not used by the core.
#[derive(Debug, Clone)]
pub struct Credentials {
    pub username: String,
    pub password: String,
}

/// An RGB font color.
#[derive(Debug, Copy, Clone, PartialEq, Eq, Structural)]
pub struct FontColor {
    pub r: u8,
    pub g: u8,
    pub b: u8,
}

/// Whether `c` is an ASCII hexadecimal digit.
pub open spec fn is_hex_char(c: char) -> bool {
    ('0' as int <= c as int <= '9' as int) || ('a' as int <= c as int <= 'f' as int) || ('A' as int
        <= c as int <= 'F' as int)
}

/// The value of an ASCII hexadecimal digit.
pub open spec fn hex_val(c: char) -> int {
    if '0' as int <= c as int <= '9' as int {
        c as int - '0' as int
    } else if 'a' as int <= c as int <= 'f' as int {
        c as int - 'a' as int + 10
    } else {
        c as int - 'A' as int + 10
    }
}

/// Whether a color string is well formed: `#` followed by six hexadecimal
/// digits.
pub open spec fn spec_color_ok(s: Seq<char>) -> bool {
    s.len() == 7 && s[0] == '#' && (forall|i: int| 1 <= i < 7 ==> is_hex_char(#[trigger] s[i]))
}

/// The color a string denotes: `#RRGGBB` parsed channel-wise, or the
/// default white for anything else.
pub open spec fn spec_color_of(s: Seq<char>) -> FontColor {
    if spec_color_ok(s) {
        FontColor {
            r: (hex_val(s[1]) * 16 + hex_val(s[2])) as u8,
            g: (hex_val(s[3]) * 16 + hex_val(s[4])) as u8,
            b: (hex_val(s[5]) * 16 + hex_val(s[6])) as u8,
        }
    } else {
        FontColor { r: 255, g: 255, b: 255 }
    }
}

impl Default for FontColor {
    /// The default font color is white.
    fn default() -> (r: Self)
        ensures
            r == (FontColor { r: 255u8, g: 255u8, b: 255u8 }),
    {
        FontColor { r: 255, g: 255, b: 255 }
    }
}

fn hex_digit(c: char) -> (d: Option<u8>)
    ensures
        d is Some <==> is_hex_char(c),
        d is Some ==> d->0 < 16 && d->0 as int == hex_val(c),
{
    match c {
        '0' => Some(0),
        '1' => Some(1),
        '2' => Some(2),
        '3' => Some(3),
        '4' => Some(4),
        '5' => Some(5),
        '6' => Some(6),
        '7' => Some(7),
        '8' => Some(8),
        '9' => Some(9),
        'a' => Some(10),
        'b' => Some(11),
        'c' => Some(12),
        'd' => Some(13),
        'e' => Some(14),
        'f' => Some(15),
        'A' => Some(10),
        'B' => Some(11),
        'C' => Some(12),
        'D' => Some(13),
        'E' => Some(14),
        'F' => Some(15),
        _ => None,
    }
}

impl FontColor {
    /// Parses a `#RRGGBB` color string; anything malformed yields the
    /// default white.
    pub fn from_hex(value: &str) -> (r: FontColor)
        ensures
            r == spec_color_of(value@),
    {
        let len = value.unicode_len();
        if len != 7 {
            return FontColor::default();
        }
        if value.get_char(0) != '#' {
            return FontColor::default();
        }
        let d1 = hex_digit(value.get_char(1));
        let d2 = hex_digit(value.get_char(2));
        let d3 = hex_digit(value.get_char(3));
        let d4 = hex_digit(value.get_char(4));
        let d5 = hex_digit(value.get_char(5));
        let d6 = hex_digit(value.get_char(6));
        match (d1, d2, d3, d4, d5, d6) {
            (Some(a), Some(b), Some(c), Some(d), Some(e), Some(f)) => {
                proof {
                    assert forall|i: int| 1 <= i < 7 implies is_hex_char(
                        #[trigger] value@[i],
                    ) by {}
                    assert(spec_color_ok(value@));
                }
                FontColor { r: a * 16 + b, g: c * 16 + d, b: e * 16 + f }
            },
            _ => {
                proof {
                    assert(!spec_color_ok(value@));
                }
                FontColor::default()
            },
        }
    }
}

/// Configuration settings of the monitor file.
#[derive(Debug, Clone)]
pub struct Setup {
    /// Switch time between panels in seconds, held as the raw string of the
    /// configuration file.
    pub switch_time: Option<String>,
    /// Panel redraw interval in milliseconds.
    pub refresh_ms: u64,
}

/// One data display unit of a panel.
#[derive(Debug, Clone)]
pub struct Sensor {
    /// Sensor mode: text, fan, progress, pointer.
    pub mode: SensorMode,
    /// Sensor source type of the configuration file.
    pub sensor_type: i32,
    /// Label name for internal panels.
    pub name: Option<String>,
    /// Label name for custom panels.
    pub item_name: Option<String>,
    /// Label identifier, also used as data source identifier.
    pub label: String,
    /// Configured sensor value; ignored, values come from a snapshot.
    pub value: Option<String>,
    /// Lower bound of the gauge range, in milli-units.
    pub min_value: Option<i64>,
    /// Upper bound of the gauge range, in milli-units.
    pub max_value: Option<i64>,
    /// Optional unit text to print after the value.
    pub unit: Option<String>,
    /// x-position.
    pub x: i32,
    /// y-position.
    pub y: i32,
    pub width: Option<i32>,
    pub height: Option<i32>,
    /// Sensor graphic orientation.
    pub direction: Option<SensorDirection>,
    /// Font name matching a font filename without file extension.
    pub font_family: Option<String>,
    pub font_size: Option<i32>,
    pub font_color: Option<FontColor>,
    pub font_weight: Option<FontWeight>,
    pub text_align: Option<TextAlign>,
    /// Number of integer places for the sensor value.
    pub integer_digits: Option<i32>,
    /// Number of decimal places for the sensor value.
    pub decimal_digits: Option<i32>,
    /// Image for progress, fan and pointer indicators.
    pub pic: Option<String>,
    /// Start angle for fan and pointer sensors, in degrees.
    pub min_angle: Option<i32>,
    /// End angle for fan and pointer sensors, in degrees.
    pub max_angle: Option<i32>,
    /// Pivot x offset for pointer sensors.
    pub xz_x: Option<i32>,
    /// Pivot y offset for pointer sensors.
    pub xz_y: Option<i32>,
}

/// Custom panel definition: a background image and an ordered sensor list.
#[derive(Debug, Clone)]
pub struct Panel {
    /// Custom panel id.
    pub id: Option<String>,
    /// Custom panel name.
    pub name: Option<String>,
    /// Background image filename.
    pub img: Option<String>,
    /// Sensors, drawn in order.
    pub sensor: Vec<Sensor>,
}

/// Index of the character after the last `/`, or 0.
pub open spec fn spec_after_last_slash(s: Seq<char>) -> int
    decreases s.len(),
{
    if s.len() == 0 {
        0
    } else if s[s.len() - 1] == '/' {
        s.len() as int
    } else {
        spec_after_last_slash(s.drop_last())
    }
}

/// The file stem of a path string: the part after the last `/`, with a
/// trailing extension after a non-leading `.` removed.
pub open spec fn spec_file_stem(s: Seq<char>) -> Seq<char> {
    let base = s.skip(spec_after_last_slash(s));
    let d = spec_last_dot(base);
    if d > 0 {
        base.take(d)
    } else {
        base
    }
}

/// Index of the last `.`, or -1.
pub open spec fn spec_last_dot(s: Seq<char>) -> int
    decreases s.len(),
{
    if s.len() == 0 {
        -1
    } else if s[s.len() - 1] == '.' {
        s.len() - 1
    } else {
        spec_last_dot(s.drop_last())
    }
}

/// What `friendly_name` returns: the panel name, else its id, else the file
/// stem of its background image, else `panel`.
pub open spec fn spec_friendly_name(p: Panel) -> Seq<char> {
    match p.name {
        Some(n) => n@,
        None => match p.id {
            Some(i) => i@,
            None => match p.img {
                Some(f) => spec_file_stem(f@),
                None => "panel"@,
            },
        },
    }
}

fn after_last_slash(s: &str) -> (r: usize)
    ensures
        r == spec_after_last_slash(s@),
        r <= s@.len(),
{
    let len = s.unicode_len();
    proof {
        assert(s@.take(len as int) =~= s@);
    }
    let mut i: usize = len;
    while i > 0
        invariant
            0 <= i <= len,
            len == s@.len(),
            spec_after_last_slash(s@) == spec_after_last_slash(s@.take(i as int)),
        decreases i,
    {
        if s.get_char(i - 1) == '/' {
            proof {
                assert(s@.take(i as int)[i - 1] == s@[i - 1]);
            }
            return i;
        }
        proof {
            assert(s@.take(i as int)[i - 1] == s@[i - 1]);
            assert(s@.take(i as int).drop_last() =~= s@.take(i - 1));
        }
        i -= 1;
    }
    proof {
        assert(s@.take(0) =~= Seq::<char>::empty());
    }
    0
}

fn last_dot(s: &str) -> (r: Option<usize>)
    ensures
        match r {
            Some(i) => i == spec_last_dot(s@) && i < s@.len(),
            None => spec_last_dot(s@) == -1,
        },
{
    let len = s.unicode_len();
    proof {
        assert(s@.take(len as int) =~= s@);
    }
    let mut i: usize = len;
    while i > 0
        invariant
            0 <= i <= len,
            len == s@.len(),
            spec_last_dot(s@) == spec_last_dot(s@.take(i as int)),
        decreases i,
    {
        if s.get_char(i - 1) == '.' {
            proof {
                assert(s@.take(i as int)[i - 1] == s@[i - 1]);
            }
            return Some(i - 1);
        }
        proof {
            assert(s@.take(i as int)[i - 1] == s@[i - 1]);
            assert(s@.take(i as int).drop_last() =~= s@.take(i - 1));
        }
        i -= 1;
    }
    proof {
        assert(s@.take(0) =~= Seq::<char>::empty());
    }
    None
}

impl Panel {
    /// A human-readable name for the panel: its name, else its id, else the
    /// file stem of its background image, else `panel`.
    pub fn friendly_name(&self) -> (r: String)
        ensures
            r@ == spec_friendly_name(*self),
    {
        match &self.name {
            Some(n) => n.clone(),
            None => match &self.id {
                Some(i) => i.clone(),
                None => match &self.img {
                    Some(f) => {
                        let start = after_last_slash(f.as_str());
                        let flen = f.as_str().unicode_len();
                        let base = f.as_str().substring_char(start, flen);
                        proof {
                            assert(base@ == f@.skip(spec_after_last_slash(f@)));
                        }
                        match last_dot(base) {
                            Some(d) if d > 0 => {
                                let stem = base.substring_char(0, d);
                                proof {
                                    assert(stem@ =~= spec_file_stem(f@));
                                }
                                stem.to_owned()
                            },
                            _ => {
                                proof {
                                    assert(base@ =~= spec_file_stem(f@));
                                }
                                base.to_owned()
                            },
                        }
                    },
                    None => {
                        let r: String = "panel".to_owned();
                        r
                    },
                },
            },
        }
    }
}

/// The positive entries of the active-panel list, in order.
pub open spec fn spec_positives(s: Seq<u32>) -> Seq<u32>
    decreases s.len(),
{
    if s.len() == 0 {
        Seq::empty()
    } else {
        spec_positives(s.drop_last()) + if s.last() > 0 {
            seq![s.last()]
        } else {
            Seq::<u32>::empty()
        }
    }
}

/// The monitor configuration: settings, the active-panel index list, and
/// the panel definitions, plus the rotation cursor.
#[derive(Debug)]
pub struct MonitorConfig {
    /// Configuration settings.
    pub setup: Setup,
    /// Active panels: 1-based indexes into `panels`.
    pub active_panels: Vec<u32>,
    /// Custom panel definitions.
    pub panels: Vec<Panel>,
    /// 1-based rotation cursor over the positive active-panel entries.
    pub active_panel_idx: Option<usize>,
}

impl MonitorConfig {
    /// A configuration with a fresh rotation cursor.
    pub fn new(setup: Setup, active_panels: Vec<u32>, panels: Vec<Panel>) -> (r: MonitorConfig)
        ensures
            r.setup == setup,
            r.active_panels == active_panels,
            r.panels == panels,
            r.spec_cursor() is None,
    {
        MonitorConfig { setup, active_panels, panels, active_panel_idx: None }
    }

    pub open spec fn spec_cursor(&self) -> Option<usize> {
        self.active_panel_idx
    }

    /// The 1-based cursor position that the next rotation step targets.
    pub open spec fn spec_next_cursor(&self) -> int {
        let cur = match self.spec_cursor() {
            Some(i) => i as int,
            None => 0,
        };
        if cur + 1 > self.panels@.len() {
            1
        } else {
            cur + 1
        }
    }

    /// Advances the panel rotation and returns the 0-based index of the
    /// next active panel: the cursor steps through the positive entries of
    /// the active-panel list and only yields entries that index an existing
    /// panel.  Without a match the cursor is left unchanged and no panel is
    /// returned.
    pub fn get_next_active_panel(&mut self) -> (r: Option<usize>)
        ensures
            ({
                let nxt = old(self).spec_next_cursor();
                let pos = spec_positives(old(self).active_panels@);
                if 1 <= nxt <= pos.len() && pos[nxt - 1] <= old(self).panels@.len() {
                    &&& r == Some((pos[nxt - 1] - 1) as usize)
                    &&& final(self).spec_cursor() == Some(nxt as usize)
                    &&& final(self).active_panels == old(self).active_panels
                    &&& final(self).panels == old(self).panels
                    &&& final(self).setup == old(self).setup
                } else {
                    r is None && *final(self) == *old(self)
                }
            }),
    {
        let cur = match self.active_panel_idx {
            Some(i) => i,
            None => 0,
        };
        let plen = self.panels.len();
        let next: usize = if cur >= usize::MAX {
            1
        } else if cur + 1 > plen {
            1
        } else {
            cur + 1
        };
        proof {
            assert(plen == self.panels@.len());
            assert(next as int == self.spec_next_cursor());
        }
        let n = self.active_panels.len();
        let mut pos: Vec<u32> = Vec::new();
        let mut i: usize = 0;
        while i < n
            invariant
                0 <= i <= n,
                n == self.active_panels@.len(),
                pos@ == spec_positives(self.active_panels@.take(i as int)),
                forall|k: int| 0 <= k < pos@.len() ==> #[trigger] pos@[k] > 0,
            decreases n - i,
        {
            let a = self.active_panels[i];
            proof {
                assert(self.active_panels@.take(i + 1).drop_last() =~= self.active_panels@.take(
                    i as int,
                ));
                assert(self.active_panels@.take(i + 1).last() == a);
            }
            if a > 0 {
                pos.push(a);
                proof {
                    assert(pos@ =~= spec_positives(self.active_panels@.take(i + 1)));
                }
            } else {
                proof {
                    assert(pos@ =~= spec_positives(self.active_panels@.take(i + 1)));
                }
            }
            i += 1;
        }
        proof {
            assert(self.active_panels@.take(n as int) =~= self.active_panels@);
        }
        if 1 <= next && next <= pos.len() {
            let a = pos[next - 1];
            if (a as usize) <= self.panels.len() {
                self.active_panel_idx = Some(next);
                return Some((a as usize) - 1);
            }
        }
        None
    }
}

} // verus!

//! The identity of a photograph, the file names that carry it, and the
//! names and archive paths rendered from it.
//!
//! A canonical file stem reads `<device>_<date><time>_<sequence>`: a device
//! tag of ASCII letters and digits, an underscore, eight digits of date
//! and six of time, an underscore, and a sequence of ASCII letters and
//! digits. Parsing is the inverse of rendering.

use vstd::prelude::*;
use vstd::string::*;
use crate::text::{
    all_alnum, all_alnum_in, all_digits, all_digits_in, chars_of, extension_dot, extension_of,
    file_name, file_name_of, find_extension_dot, find_first, has_extension, is_alnum, is_digit,
    is_upper,
    last_slash, lower_char, lowered, lowered_text_of, push_char, stem_of, sub_vec, text_of,
};

verus! {

/// How many leading characters of a canonical name its compact form drops.
pub const COMPACT_SKIP: usize = 9;

/// The mathematical value of an [`Identity`].
pub struct IdentityView {
    pub device_tag: Seq<char>,
    pub capture_date: Seq<char>,
    pub capture_time: Seq<char>,
    pub sequence: Seq<char>,
    pub extension: Seq<char>,
}

/// What is known of a photograph from its name: which device took it, on
/// which day and at what time, which shot of that moment it is, and the
/// extension of its file.
#[derive(Debug, PartialEq, Eq)]
pub struct Identity {
    device_tag: String,
    capture_date: String,
    capture_time: String,
    sequence: String,
    extension: String,
}

/// Why no identity could be derived from a file name.
#[derive(Debug, PartialEq, Eq)]
pub enum ParseError {
    /// The name does not follow the naming convention.
    Unrecognized,
}

/// A capture date and time read from inside a file.
#[derive(Debug, PartialEq, Eq)]
pub struct CaptureStamp {
    date: String,
    time: String,
}

impl View for Identity {
    type V = IdentityView;

    closed spec fn view(&self) -> IdentityView {
        IdentityView {
            device_tag: self.device_tag@,
            capture_date: self.capture_date@,
            capture_time: self.capture_time@,
            sequence: self.sequence@,
            extension: self.extension@,
        }
    }
}

impl View for CaptureStamp {
    type V = (Seq<char>, Seq<char>);

    closed spec fn view(&self) -> (Seq<char>, Seq<char>) {
        (self.date@, self.time@)
    }
}

/// An extension as an identity keeps it: no upper-case ASCII letter, no
/// dot and no slash.
pub open spec fn tidy_extension(e: Seq<char>) -> bool {
    forall|i: int| 0 <= i < e.len() ==> !is_upper(#[trigger] e[i]) && e[i] != '.' && e[i] != '/'
}

/// A date of eight digits.
pub open spec fn date_shaped(d: Seq<char>) -> bool {
    d.len() == 8 && all_digits(d)
}

/// A time of six digits.
pub open spec fn time_shaped(t: Seq<char>) -> bool {
    t.len() == 6 && all_digits(t)
}

/// A text that begins as a date and time are written inside a file:
/// `YYYY:MM:DD HH:MM:SS`.
pub open spec fn exif_shaped(t: Seq<char>) -> bool {
    &&& t.len() >= 19
    &&& t[4] == ':' && t[7] == ':' && t[10] == ' ' && t[13] == ':' && t[16] == ':'
    &&& all_digits(t.subrange(0, 4))
    &&& all_digits(t.subrange(5, 7))
    &&& all_digits(t.subrange(8, 10))
    &&& all_digits(t.subrange(11, 13))
    &&& all_digits(t.subrange(14, 16))
    &&& all_digits(t.subrange(17, 19))
}

/// The date of such a text, as `YYYYMMDD`.
pub open spec fn exif_date(t: Seq<char>) -> Seq<char> {
    t.subrange(0, 4) + t.subrange(5, 7) + t.subrange(8, 10)
}

/// The time of such a text, as `HHMMSS`.
pub open spec fn exif_time(t: Seq<char>) -> Seq<char> {
    t.subrange(11, 13) + t.subrange(14, 16) + t.subrange(17, 19)
}

/// The invariant of every identity.
pub open spec fn well_formed(v: IdentityView) -> bool {
    &&& v.device_tag.len() > 0
    &&& all_alnum(v.device_tag)
    &&& date_shaped(v.capture_date)
    &&& time_shaped(v.capture_time)
    &&& v.sequence.len() > 0
    &&& all_alnum(v.sequence)
    &&& tidy_extension(v.extension)
}

/// Two identities name the same photograph: they agree in device, date,
/// time and sequence.
pub open spec fn same_photo(a: IdentityView, b: IdentityView) -> bool {
    &&& a.device_tag == b.device_tag
    &&& a.capture_date == b.capture_date
    &&& a.capture_time == b.capture_time
    &&& a.sequence == b.sequence
}

/// The canonical stem of an identity.
pub open spec fn canonical_name_of(v: IdentityView) -> Seq<char> {
    v.device_tag + seq!['_'] + v.capture_date + v.capture_time + seq!['_'] + v.sequence
}

/// The compact stem of an identity: the canonical stem without its first
/// nine characters.
pub open spec fn compact_name_of(v: IdentityView) -> Seq<char> {
    canonical_name_of(v).skip(COMPACT_SKIP as int)
}

/// The year of an identity: the first four characters of its date.
pub open spec fn year_of(v: IdentityView) -> Seq<char> {
    v.capture_date.take(4)
}

/// The directory of an identity in the date-bucketed layout.
pub open spec fn expanded_dir_of(v: IdentityView, root: Seq<char>, by_year: bool) -> Seq<char> {
    if by_year {
        root + seq!['/'] + year_of(v) + seq!['/'] + v.capture_date
    } else {
        root + seq!['/'] + v.capture_date
    }
}

/// The path of the file `stem.extension` in `dir`.
pub open spec fn file_in(dir: Seq<char>, stem: Seq<char>, extension: Seq<char>) -> Seq<char> {
    dir + seq!['/'] + stem + seq!['.'] + extension
}

/// The identity that a stem spells out, with a given extension.
pub open spec fn parse_stem(stem: Seq<char>, extension: Seq<char>) -> Option<IdentityView> {
    match stem.index_of_first('_') {
        None => None,
        Some(k) => {
            let n = stem.len() as int;
            if 0 < k && k + 16 < n && all_alnum(stem.subrange(0, k)) && all_digits(
                stem.subrange(k + 1, k + 15),
            ) && stem[k + 15] == '_' && all_alnum(stem.subrange(k + 16, n)) {
                Some(
                    IdentityView {
                        device_tag: stem.subrange(0, k),
                        capture_date: stem.subrange(k + 1, k + 9),
                        capture_time: stem.subrange(k + 9, k + 15),
                        sequence: stem.subrange(k + 16, n),
                        extension,
                    },
                )
            } else {
                None
            }
        },
    }
}

/// The identity that the file name at the end of `path` spells out, its
/// extension in lower case.
pub open spec fn parse_name(path: Seq<char>) -> Option<IdentityView> {
    let name = file_name_of(path);
    parse_stem(stem_of(name), lowered(extension_of(name)))
}

/// An identity with its date and time replaced by those of a stamp.
pub open spec fn refined(v: IdentityView, stamp: Option<(Seq<char>, Seq<char>)>) -> IdentityView {
    match stamp {
        Some((date, time)) => IdentityView { capture_date: date, capture_time: time, ..v },
        None => v,
    }
}

/// Whether `v` holds neither a dot nor a slash.
fn no_separator(v: &Vec<char>) -> (r: bool)
    ensures
        r == (forall|i: int| 0 <= i < v@.len() ==> #[trigger] v@[i] != '.' && v@[i] != '/'),
{
    let mut i: usize = 0;
    while i < v.len()
        invariant
            i <= v.len(),
            forall|j: int| 0 <= j < i ==> #[trigger] v@[j] != '.' && v@[j] != '/',
        decreases v.len() - i,
    {
        if v[i] == '.' || v[i] == '/' {
            return false;
        }
        i = i + 1;
    }
    true
}

impl CaptureStamp {
    /// A stamp of the given date and time, where the date is eight digits
    /// and the time six.
    pub fn new(date: &str, time: &str) -> (r: Option<CaptureStamp>)
        ensures
            r is Some <==> date_shaped(date@) && time_shaped(time@),
            r matches Some(stamp) ==> stamp@ == (date@, time@),
    {
        let d = chars_of(date);
        let t = chars_of(time);
        if d.len() == 8 && t.len() == 6 && all_digits_in(&d, 0, 8) && all_digits_in(&t, 0, 6) {
            assert(d@.subrange(0, 8) =~= d@);
            assert(t@.subrange(0, 6) =~= t@);
            Some(CaptureStamp { date: text_of(&d, 0, 8), time: text_of(&t, 0, 6) })
        } else {
            proof {
                if d.len() == 8 {
                    assert(d@.subrange(0, 8) =~= d@);
                }
                if t.len() == 6 {
                    assert(t@.subrange(0, 6) =~= t@);
                }
            }
            None
        }
    }

    /// The stamp that a text of the form `YYYY:MM:DD HH:MM:SS` holds, as
    /// it is written inside a file; what follows the seconds is ignored.
    pub fn from_exif(text: &str) -> (r: Option<CaptureStamp>)
        ensures
            r is Some <==> exif_shaped(text@),
            r matches Some(stamp) ==> stamp@ == (exif_date(text@), exif_time(text@)),
    {
        let t = chars_of(text);
        if t.len() < 19 {
            return None;
        }
        if t[4] != ':' || t[7] != ':' || t[10] != ' ' || t[13] != ':' || t[16] != ':' {
            return None;
        }
        if !(all_digits_in(&t, 0, 4) && all_digits_in(&t, 5, 7) && all_digits_in(&t, 8, 10)
            && all_digits_in(&t, 11, 13) && all_digits_in(&t, 14, 16) && all_digits_in(
            &t,
            17,
            19,
        )) {
            return None;
        }
        let mut date = text_of(&t, 0, 4);
        date.append(text_of(&t, 5, 7).as_str());
        date.append(text_of(&t, 8, 10).as_str());
        let mut time = text_of(&t, 11, 13);
        time.append(text_of(&t, 14, 16).as_str());
        time.append(text_of(&t, 17, 19).as_str());
        proof {
            let d = exif_date(text@);
            assert forall|i: int| 0 <= i < d.len() implies is_digit(#[trigger] d[i]) by {
                if i < 4 {
                    assert(d[i] == text@.subrange(0, 4)[i]);
                } else if i < 6 {
                    assert(d[i] == text@.subrange(5, 7)[i - 4]);
                } else {
                    assert(d[i] == text@.subrange(8, 10)[i - 6]);
                }
            }
            let c = exif_time(text@);
            assert forall|i: int| 0 <= i < c.len() implies is_digit(#[trigger] c[i]) by {
                if i < 2 {
                    assert(c[i] == text@.subrange(11, 13)[i]);
                } else if i < 4 {
                    assert(c[i] == text@.subrange(14, 16)[i - 2]);
                } else {
                    assert(c[i] == text@.subrange(17, 19)[i - 4]);
                }
            }
        }
        Some(CaptureStamp { date, time })
    }

    /// The invariant of every stamp: its date is eight digits and its
    /// time six.
    #[verifier::type_invariant]
    pub open spec fn shaped(self) -> bool {
        date_shaped(self@.0) && time_shaped(self@.1)
    }

    /// The date of the stamp: eight digits.
    pub fn date(&self) -> (r: &str)
        ensures
            r@ == self@.0,
            date_shaped(r@),
    {
        proof {
            use_type_invariant(self);
        }
        self.date.as_str()
    }

    /// The time of the stamp: six digits.
    pub fn time(&self) -> (r: &str)
        ensures
            r@ == self@.1,
            time_shaped(r@),
    {
        proof {
            use_type_invariant(self);
        }
        self.time.as_str()
    }
}

impl Clone for Identity {
    fn clone(&self) -> (r: Identity)
        ensures
            r@ == self@,
    {
        proof {
            use_type_invariant(self);
        }
        Identity {
            device_tag: self.device_tag.clone(),
            capture_date: self.capture_date.clone(),
            capture_time: self.capture_time.clone(),
            sequence: self.sequence.clone(),
            extension: self.extension.clone(),
        }
    }
}

impl Identity {
    /// Every identity is well formed.
    #[verifier::type_invariant]
    pub open spec fn valid(self) -> bool {
        well_formed(self@)
    }

    /// The identity of the given parts, the extension in lower case.
    /// None where a part is not as an identity holds it: the device tag
    /// and the sequence are ASCII letters and digits, at least one; the
    /// date is eight digits; the time is six; the extension holds neither
    /// a dot nor a slash.
    pub fn new(
        device_tag: &str,
        capture_date: &str,
        capture_time: &str,
        sequence: &str,
        extension: &str,
    ) -> (r: Option<Identity>)
        ensures
            r is Some <==> well_formed(
                IdentityView {
                    device_tag: device_tag@,
                    capture_date: capture_date@,
                    capture_time: capture_time@,
                    sequence: sequence@,
                    extension: lowered(extension@),
                },
            ),
            r matches Some(id) ==> id@ == (IdentityView {
                device_tag: device_tag@,
                capture_date: capture_date@,
                capture_time: capture_time@,
                sequence: sequence@,
                extension: lowered(extension@),
            }),
    {
        let tag = chars_of(device_tag);
        let date = chars_of(capture_date);
        let time = chars_of(capture_time);
        let seq = chars_of(sequence);
        let ext = chars_of(extension);
        proof {
            assert(tag@.subrange(0, tag@.len() as int) =~= tag@);
            assert(date@.subrange(0, date@.len() as int) =~= date@);
            assert(time@.subrange(0, time@.len() as int) =~= time@);
            assert(seq@.subrange(0, seq@.len() as int) =~= seq@);
            assert(ext@.subrange(0, ext@.len() as int) =~= ext@);
        }
        let separated = !no_separator(&ext);
        proof {
            if separated {
                let i = choose|i: int|
                    0 <= i < ext@.len() && !(#[trigger] ext@[i] != '.' && ext@[i] != '/');
                assert(lowered(ext@)[i] == lower_char(ext@[i]));
            } else {
                lemma_lowered_tidy(ext@);
            }
        }
        if tag.len() == 0 || !all_alnum_in(&tag, 0, tag.len()) {
            return None;
        }
        if date.len() != 8 || !all_digits_in(&date, 0, 8) {
            return None;
        }
        if time.len() != 6 || !all_digits_in(&time, 0, 6) {
            return None;
        }
        if seq.len() == 0 || !all_alnum_in(&seq, 0, seq.len()) {
            return None;
        }
        if separated {
            return None;
        }
        Some(
            Identity {
                device_tag: text_of(&tag, 0, tag.len()),
                capture_date: text_of(&date, 0, 8),
                capture_time: text_of(&time, 0, 6),
                sequence: text_of(&seq, 0, seq.len()),
                extension: lowered_text_of(&ext, 0, ext.len()),
            },
        )
    }

    /// The device that took the photograph.
    pub fn device_tag(&self) -> (r: &str)
        ensures
            r@ == self@.device_tag,
    {
        self.device_tag.as_str()
    }

    /// The day of capture, as `YYYYMMDD`.
    pub fn capture_date(&self) -> (r: &str)
        ensures
            r@ == self@.capture_date,
    {
        self.capture_date.as_str()
    }

    /// The time of capture, as `HHMMSS`.
    pub fn capture_time(&self) -> (r: &str)
        ensures
            r@ == self@.capture_time,
    {
        self.capture_time.as_str()
    }

    /// The discriminator among the shots of one moment.
    pub fn sequence(&self) -> (r: &str)
        ensures
            r@ == self@.sequence,
    {
        self.sequence.as_str()
    }

    /// The extension of the file, in lower case.
    pub fn extension(&self) -> (r: &str)
        ensures
            r@ == self@.extension,
    {
        self.extension.as_str()
    }

    /// Whether two identities name the same photograph.
    pub fn is_same_photo(&self, other: &Identity) -> (r: bool)
        ensures
            r == same_photo(self@, other@),
    {
        self.device_tag == other.device_tag && self.capture_date == other.capture_date
            && self.capture_time == other.capture_time && self.sequence == other.sequence
    }

    /// The identity with its date and time taken from `stamp`, where there
    /// is one; device, sequence and extension stay.
    pub fn refine_from_capture_metadata(&self, stamp: Option<&CaptureStamp>) -> (r: Identity)
        ensures
            r@ == refined(
                self@,
                match stamp {
                    Some(s) => Some(s@),
                    None => None,
                },
            ),
            well_formed(r@),
    {
        proof {
            use_type_invariant(self);
        }
        match stamp {
            Some(s) => {
                proof {
                    use_type_invariant(s);
                }
                Identity {
                    device_tag: self.device_tag.clone(),
                    capture_date: s.date.clone(),
                    capture_time: s.time.clone(),
                    sequence: self.sequence.clone(),
                    extension: self.extension.clone(),
                }
            },
            None => self.clone(),
        }
    }

    /// The canonical stem: device, underscore, date and time, underscore,
    /// sequence.
    pub fn canonical_name(&self) -> (r: String)
        ensures
            r@ == canonical_name_of(self@),
    {
        let mut r = self.device_tag.clone();
        push_char(&mut r, '_');
        r.append(self.capture_date.as_str());
        r.append(self.capture_time.as_str());
        push_char(&mut r, '_');
        r.append(self.sequence.as_str());
        assert(r@ =~= canonical_name_of(self@));
        r
    }

    /// The compact stem: the canonical stem without its first nine
    /// characters.
    pub fn compact_name(&self) -> (r: String)
        ensures
            r@ == compact_name_of(self@),
            r@ == canonical_name_of(self@).skip(9),
    {
        proof {
            use_type_invariant(self);
        }
        let name = self.canonical_name();
        let chars = chars_of(name.as_str());
        text_of(&chars, COMPACT_SKIP, chars.len())
    }

    /// The day of capture, as `YYYYMMDD`.
    pub fn canonical_date(&self) -> (r: String)
        ensures
            r@ == self@.capture_date,
            r@.len() == 8,
    {
        proof {
            use_type_invariant(self);
        }
        self.capture_date.clone()
    }

    /// Directory and full path of the photograph below `root` in the
    /// date-bucketed layout: `root/<date>/<canonical name>.<extension>`,
    /// or, by year, `root/<year>/<date>/<canonical name>.<extension>`.
    pub fn expanded_dir_and_path(&self, root: &str, by_year: bool) -> (r: (String, String))
        ensures
            r.0@ == expanded_dir_of(self@, root@, by_year),
            r.1@ == file_in(r.0@, canonical_name_of(self@), self@.extension),
    {
        proof {
            use_type_invariant(self);
        }
        let mut dir = String::from_str(root);
        push_char(&mut dir, '/');
        if by_year {
            let date = chars_of(self.capture_date.as_str());
            let year = text_of(&date, 0, 4);
            dir.append(year.as_str());
            push_char(&mut dir, '/');
        }
        dir.append(self.capture_date.as_str());
        assert(dir@ =~= expanded_dir_of(self@, root@, by_year));
        let name = self.canonical_name();
        let path = join_file(dir.as_str(), name.as_str(), self.extension.as_str());
        (dir, path)
    }

    /// Directory and full path of the photograph below `root` in the flat
    /// layout: `root/<compact name>.<extension>`.
    pub fn compact_dir_and_path(&self, root: &str) -> (r: (String, String))
        ensures
            r.0@ == root@,
            r.1@ == file_in(root@, compact_name_of(self@), self@.extension),
    {
        let dir = String::from_str(root);
        let name = self.compact_name();
        let path = join_file(root, name.as_str(), self.extension.as_str());
        (dir, path)
    }
}

/// The path of the file `stem.extension` in `dir`.
pub fn join_file(dir: &str, stem: &str, extension: &str) -> (r: String)
    ensures
        r@ == file_in(dir@, stem@, extension@),
{
    let mut r = String::from_str(dir);
    push_char(&mut r, '/');
    r.append(stem);
    push_char(&mut r, '.');
    r.append(extension);
    assert(r@ =~= file_in(dir@, stem@, extension@));
    r
}

/// Derives the identity of a photograph from its file name or path.
///
/// The directories of the path are ignored; the stem of the file name has
/// to be a canonical name. The extension is kept in lower case.
pub fn parse(path: &str) -> (r: Result<Identity, ParseError>)
    ensures
        match r {
            Ok(id) => parse_name(path@) == Some(id@),
            Err(e) => parse_name(path@) is None && e == ParseError::Unrecognized,
        },
{
    let chars = chars_of(path);
    let name = file_name(&chars);
    let dot = find_extension_dot(&name);
    let stem = match dot {
        Some(d) => sub_vec(&name, 0, d),
        None => sub_vec(&name, 0, name.len()),
    };
    let extension = match dot {
        Some(d) => lowered_text_of(&name, d + 1, name.len()),
        None => String::new(),
    };
    proof {
        assert(stem@ =~= stem_of(name@));
        assert(extension@ =~= lowered(extension_of(name@)));
        lemma_extension_tidy(path@);
    }
    let n = stem.len();
    match find_first(&stem, '_') {
        None => Err(ParseError::Unrecognized),
        Some(k) => {
            if k == 0 || n - k <= 16 {
                return Err(ParseError::Unrecognized);
            }
            if !all_alnum_in(&stem, 0, k) || !all_digits_in(&stem, k + 1, k + 15) || stem[k + 15]
                != '_' || !all_alnum_in(&stem, k + 16, n) {
                return Err(ParseError::Unrecognized);
            }
            proof {
                lemma_parse_stem_sound(stem@, extension@);
            }
            Ok(
                Identity {
                    device_tag: text_of(&stem, 0, k),
                    capture_date: text_of(&stem, k + 1, k + 9),
                    capture_time: text_of(&stem, k + 9, k + 15),
                    sequence: text_of(&stem, k + 16, n),
                    extension,
                },
            )
        },
    }
}

/// Lowering a text leaves no upper-case letter, and neither adds nor
/// removes a dot or a slash.
pub proof fn lemma_lowered_tidy(e: Seq<char>)
    requires
        forall|i: int| 0 <= i < e.len() ==> #[trigger] e[i] != '.' && e[i] != '/',
    ensures
        tidy_extension(lowered(e)),
{
    assert forall|i: int| 0 <= i < lowered(e).len() implies !is_upper(#[trigger] lowered(e)[i])
        && lowered(e)[i] != '.' && lowered(e)[i] != '/' by {
        let c = e[i];
        assert(lowered(e)[i] == lower_char(c));
        if is_upper(c) {
            assert(65 <= c as u32 <= 90);
            assert(lower_char(c) as u32 == c as u32 + 32);
        }
    }
}

/// The extension of the file name at the end of a path, in lower case,
/// is one that an identity can keep.
pub proof fn lemma_extension_tidy(path: Seq<char>)
    ensures
        tidy_extension(lowered(extension_of(file_name_of(path)))),
{
    lemma_extension_plain(path);
    lemma_lowered_tidy(extension_of(file_name_of(path)));
}

/// Whatever parses is well formed, and its canonical name is the stem it
/// was parsed from: parsing accepts canonical names only.
pub proof fn lemma_parse_stem_sound(stem: Seq<char>, extension: Seq<char>)
    requires
        parse_stem(stem, extension) is Some,
        tidy_extension(extension),
    ensures
        well_formed(parse_stem(stem, extension)->0),
        canonical_name_of(parse_stem(stem, extension)->0) == stem,
        parse_stem(stem, extension)->0.extension == extension,
{
    let v = parse_stem(stem, extension)->0;
    let k = stem.index_of_first('_')->0;
    let n = stem.len() as int;
    stem.index_of_first_ensures('_');
    let digits = stem.subrange(k + 1, k + 15);
    assert forall|i: int| 0 <= i < 8 implies is_digit(#[trigger] v.capture_date[i]) by {
        assert(v.capture_date[i] == digits[i]);
    }
    assert forall|i: int| 0 <= i < 6 implies is_digit(#[trigger] v.capture_time[i]) by {
        assert(v.capture_time[i] == digits[i + 8]);
    }
    assert(canonical_name_of(v) =~= stem);
}

/// Whatever parses from a path is well formed, its canonical name is the
/// stem of the file name, and its extension is that of the file name in
/// lower case.
pub proof fn lemma_parse_sound(path: Seq<char>)
    requires
        parse_name(path) is Some,
    ensures
        well_formed(parse_name(path)->0),
        canonical_name_of(parse_name(path)->0) == stem_of(file_name_of(path)),
        parse_name(path)->0.extension == lowered(extension_of(file_name_of(path))),
{
    let name = file_name_of(path);
    lemma_extension_tidy(path);
    lemma_parse_stem_sound(stem_of(name), lowered(extension_of(name)));
}

/// The canonical name of a well-formed identity parses back to its
/// device, date, time and sequence.
pub proof fn lemma_parse_stem_of_canonical(v: IdentityView, extension: Seq<char>)
    requires
        well_formed(v),
    ensures
        parse_stem(canonical_name_of(v), extension) == Some(
            IdentityView { extension, ..v },
        ),
{
    let s = canonical_name_of(v);
    let k = v.device_tag.len() as int;
    let n = s.len() as int;
    assert(n == k + 16 + v.sequence.len());
    assert(s[k] == '_');
    assert forall|j: int| 0 <= j < k implies s[j] != '_' by {
        assert(s[j] == v.device_tag[j]);
        assert(is_alnum(v.device_tag[j]));
    }
    s.index_of_first_ensures('_');
    assert(s.contains('_'));
    assert(s.index_of_first('_') == Some(k));
    assert(s.subrange(0, k) =~= v.device_tag);
    assert(s.subrange(k + 1, k + 9) =~= v.capture_date);
    assert(s.subrange(k + 9, k + 15) =~= v.capture_time);
    assert(s.subrange(k + 16, n) =~= v.sequence);
    assert(s[k + 15] == '_');
    assert forall|i: int| 0 <= i < 14 implies is_digit(#[trigger] s.subrange(k + 1, k + 15)[i]) by {
        if i < 8 {
            assert(s.subrange(k + 1, k + 15)[i] == v.capture_date[i]);
        } else {
            assert(s.subrange(k + 1, k + 15)[i] == v.capture_time[i - 8]);
        }
    }
}

/// A canonical name holds ASCII letters, digits and underscores only: no
/// slash, no dot, no hyphen.
pub proof fn lemma_canonical_plain(v: IdentityView)
    requires
        well_formed(v),
    ensures
        forall|j: int|
            0 <= j < canonical_name_of(v).len() ==> is_alnum(#[trigger] canonical_name_of(v)[j])
                || canonical_name_of(v)[j] == '_',
        !canonical_name_of(v).contains('/'),
        !canonical_name_of(v).contains('.'),
        canonical_name_of(v).len() == v.device_tag.len() + v.sequence.len() + 16,
{
    let s = canonical_name_of(v);
    let k = v.device_tag.len() as int;
    assert forall|j: int| 0 <= j < s.len() implies is_alnum(#[trigger] s[j]) || s[j] == '_' by {
        if j < k {
            assert(s[j] == v.device_tag[j]);
            assert(is_alnum(v.device_tag[j]));
        } else if j == k {
        } else if j < k + 9 {
            assert(s[j] == v.capture_date[j - k - 1]);
            assert(is_digit(v.capture_date[j - k - 1]));
        } else if j < k + 15 {
            assert(s[j] == v.capture_time[j - k - 9]);
            assert(is_digit(v.capture_time[j - k - 9]));
        } else if j == k + 15 {
        } else {
            assert(s[j] == v.sequence[j - k - 16]);
            assert(is_alnum(v.sequence[j - k - 16]));
        }
    }
}

/// Round trip: parsing the canonical name of a well-formed identity gives
/// an identity of the same device, date, time and sequence.
pub proof fn lemma_round_trip(v: IdentityView)
    requires
        well_formed(v),
    ensures
        parse_name(canonical_name_of(v)) is Some,
        same_photo(parse_name(canonical_name_of(v))->0, v),
{
    let s = canonical_name_of(v);
    lemma_canonical_plain(v);
    s.index_of_last_ensures('/');
    s.index_of_last_ensures('.');
    assert(file_name_of(s) =~= s);
    assert(stem_of(s) == s);
    lemma_parse_stem_of_canonical(v, lowered(extension_of(s)));
}

/// A file named by the canonical name of a well-formed identity, below
/// any directory and with any extension, has that name for its stem and
/// that extension, and its name spells out the identity.
pub proof fn lemma_canonical_file(v: IdentityView, dir: Seq<char>, extension: Seq<char>)
    requires
        well_formed(v),
        forall|i: int| 0 <= i < extension.len() ==> #[trigger] extension[i] != '.' && extension[i]
            != '/',
    ensures
        has_extension(file_name_of(file_in(dir, canonical_name_of(v), extension))),
        stem_of(file_name_of(file_in(dir, canonical_name_of(v), extension))) == canonical_name_of(
            v,
        ),
        extension_of(file_name_of(file_in(dir, canonical_name_of(v), extension))) == extension,
        parse_name(file_in(dir, canonical_name_of(v), extension)) == Some(
            IdentityView { extension: lowered(extension), ..v },
        ),
{
    let s = canonical_name_of(v);
    let name = s + seq!['.'] + extension;
    let path = file_in(dir, s, extension);
    lemma_canonical_plain(v);
    let slash = dir.len() as int;
    assert(path[slash] == '/');
    assert forall|j: int| slash < j < path.len() implies path[j] != '/' by {
        if j < slash + 1 + s.len() {
            assert(path[j] == s[j - slash - 1]);
            assert(s.contains(s[j - slash - 1]));
        } else if j == slash + 1 + s.len() {
        } else {
            assert(path[j] == extension[j - slash - 2 - s.len()]);
        }
    }
    path.index_of_last_ensures('/');
    assert(path.contains('/'));
    assert(path.index_of_last('/') == Some(slash));
    assert(file_name_of(path) =~= name);
    let dot = s.len() as int;
    assert(name[dot] == '.');
    assert forall|j: int| dot < j < name.len() implies name[j] != '.' by {
        assert(name[j] == extension[j - dot - 1]);
    }
    name.index_of_last_ensures('.');
    assert(name.contains('.'));
    assert(name.index_of_last('.') == Some(dot));
    assert(stem_of(name) =~= s);
    assert(extension_of(name) =~= extension);
    lemma_parse_stem_of_canonical(v, lowered(extension));
}

/// Round trip with the file name whole: the canonical name of a
/// well-formed identity, a dot and its extension, below any directory,
/// parses back to that very identity.
pub proof fn lemma_round_trip_file(v: IdentityView, dir: Seq<char>)
    requires
        well_formed(v),
    ensures
        parse_name(file_in(dir, canonical_name_of(v), v.extension)) == Some(v),
{
    lemma_canonical_file(v, dir, v.extension);
    assert(lowered(v.extension) =~= v.extension);
}

/// The extension of the file name at the end of a path holds neither a
/// dot nor a slash.
pub proof fn lemma_extension_plain(path: Seq<char>)
    ensures
        forall|i: int|
            0 <= i < extension_of(file_name_of(path)).len() ==> #[trigger] extension_of(
                file_name_of(path),
            )[i] != '.' && extension_of(file_name_of(path))[i] != '/',
{
    let name = file_name_of(path);
    let e = extension_of(name);
    path.index_of_last_ensures('/');
    name.index_of_last_ensures('.');
    assert forall|i: int| 0 <= i < e.len() implies #[trigger] e[i] != '.' && e[i] != '/' by {
        let d = extension_dot(name);
        assert(e[i] == name[d + 1 + i]);
        assert(name[d + 1 + i] == path[last_slash(path) + 1 + d + 1 + i]);
    }
}

/// Identities of the same photograph have the same canonical name,
/// whatever the extensions of their files.
pub proof fn lemma_same_photo_same_name(a: IdentityView, b: IdentityView)
    requires
        same_photo(a, b),
    ensures
        canonical_name_of(a) == canonical_name_of(b),
        compact_name_of(a) == compact_name_of(b),
{
}

/// Identities with the same canonical name are the same photograph.
pub proof fn lemma_canonical_name_injective(a: IdentityView, b: IdentityView)
    requires
        well_formed(a),
        well_formed(b),
        canonical_name_of(a) == canonical_name_of(b),
    ensures
        same_photo(a, b),
{
    lemma_parse_stem_of_canonical(a, Seq::empty());
    lemma_parse_stem_of_canonical(b, Seq::empty());
}

} // verus!

//! The catalog data model: one searchable entry, the search response
//! that carries a list of them, and the name-building rules.

use vstd::prelude::*;
use crate::text::decimal_digits;
use crate::text::sanitize;
use crate::text::sanitized;
use crate::text::usize_to_decimal;

verus! {

/// Ghost model of a catalog entry: the plain values its contracts
/// speak of.
#[verifier::ext_equal]
pub struct BeatmapModel {
    pub artist: Seq<char>,
    pub title: Seq<char>,
    pub creator: Seq<char>,
    pub id: nat,
}

/// One searchable catalog item with a stable numeric identifier and
/// display metadata. Immutable once constructed.
pub struct Beatmap {
    pub artist: String,
    pub creator: String,
    pub title: String,
    pub id: usize,
}

impl View for Beatmap {
    type V = BeatmapModel;

    open spec fn view(&self) -> BeatmapModel {
        BeatmapModel {
            artist: self.artist@,
            title: self.title@,
            creator: self.creator@,
            id: self.id as nat,
        }
    }
}

/// The fixed display template `"{artist} - {title} ({creator})"`.
pub open spec fn display_of(m: BeatmapModel) -> Seq<char> {
    m.artist + " - "@ + m.title + " ("@ + m.creator + ")"@
}

impl Beatmap {
    /// Renders the display template; the screen listing and the file
    /// name both start from this one string.
    pub fn display_name(&self) -> (r: String)
        ensures
            r@ == display_of(self@),
    {
        let mut r = String::new();
        r.append(self.artist.as_str());
        r.append(" - ");
        r.append(self.title.as_str());
        r.append(" (");
        r.append(self.creator.as_str());
        r.append(")");
        proof {
            assert(r@ =~= display_of(self@));
        }
        r
    }

    /// The display name with every filesystem-illegal character
    /// replaced by `_`.
    pub fn sanitized_name(&self) -> (r: String)
        ensures
            r@ == sanitized(display_of(self@)),
    {
        let d = self.display_name();
        sanitize(d.as_str())
    }

    /// The destination file name `"{id}-{sanitized display name}.osz"`.
    pub fn file_name(&self) -> (r: String)
        ensures
            r@ == decimal_digits(self@.id) + "-"@ + sanitized(display_of(self@)) + ".osz"@,
    {
        let mut r = usize_to_decimal(self.id);
        r.append("-");
        let s = self.sanitized_name();
        r.append(s.as_str());
        r.append(".osz");
        r
    }
}

impl Clone for Beatmap {
    fn clone(&self) -> (r: Self)
        ensures
            r@ == self@,
    {
        let r = Beatmap {
            artist: self.artist.clone(),
            creator: self.creator.clone(),
            title: self.title.clone(),
            id: self.id,
        };
        proof {
            assert(r@ =~= self@);
        }
        r
    }
}

/// What the catalog search returns: the list of matching entries.
pub struct Response {
    pub beatmapsets: Vec<Beatmap>,
}

/// A single redirect target, as the catalog sometimes answers with.
pub struct Location {
    pub location: String,
}

} // verus!

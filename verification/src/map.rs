//! The kinds of records and objects of a level map.

use crate::text::str_eq;
use vstd::prelude::*;
use vstd::std_specs::convert::FromSpecImpl;
use vstd::string::StringExecFns;

verus! {

/// What an object of a map is.
#[derive(Debug, Default, Clone, Copy, PartialEq, Eq, Structural)]
pub enum ObjectType {
    #[default]
    Actor,
    PlayerStart,
    Thing,
}

impl ObjectType {
    /// The object type a keyword stands for: `PLAYER_START` and `THING`
    /// name their own, every other word an actor.
    pub open spec fn of_keyword(s: Seq<char>) -> ObjectType {
        if s == "PLAYER_START"@ {
            ObjectType::PlayerStart
        } else if s == "THING"@ {
            ObjectType::Thing
        } else {
            ObjectType::Actor
        }
    }
}

impl From<&str> for ObjectType {
    fn from(s: &str) -> (r: ObjectType) {
        if str_eq(s, "PLAYER_START") {
            ObjectType::PlayerStart
        } else if str_eq(s, "THING") {
            ObjectType::Thing
        } else {
            ObjectType::Actor
        }
    }
}

impl FromSpecImpl<&str> for ObjectType {
    open spec fn obeys_from_spec() -> bool {
        true
    }

    open spec fn from_spec(s: &str) -> ObjectType {
        ObjectType::of_keyword(s@)
    }
}

/// What a line of a map file declares.
#[derive(Debug, Clone, Copy, PartialEq, Eq, Structural)]
pub enum MapDataType {
    Vertex,
    Region,
    Wall,
    Comment,
    Object,
}

impl MapDataType {
    /// The kind of line a leading keyword announces. A word that is no
    /// keyword makes the line a comment.
    pub open spec fn of_keyword(s: Seq<char>) -> MapDataType {
        if s == "VERTEX"@ {
            MapDataType::Vertex
        } else if s == "REGION"@ {
            MapDataType::Region
        } else if s == "WALL"@ {
            MapDataType::Wall
        } else if s == "PLAYER_START"@ || s == "THING"@ || s == "ACTOR"@ {
            MapDataType::Object
        } else {
            MapDataType::Comment
        }
    }

    /// The kind of line a leading keyword announces.
    pub fn classify(keyword: &str) -> (r: MapDataType)
        ensures
            r == Self::of_keyword(keyword@),
    {
        if str_eq(keyword, "VERTEX") {
            MapDataType::Vertex
        } else if str_eq(keyword, "REGION") {
            MapDataType::Region
        } else if str_eq(keyword, "WALL") {
            MapDataType::Wall
        } else if str_eq(keyword, "PLAYER_START") || str_eq(keyword, "THING") || str_eq(
            keyword,
            "ACTOR",
        ) {
            MapDataType::Object
        } else {
            MapDataType::Comment
        }
    }
}

/// A face of a map: the indices of the vertices around it, and those of
/// the loops inside it.
#[derive(Debug, Clone)]
pub struct Face {
    pub outer_loop: Vec<usize>,
    pub inner_loops: Vec<Vec<usize>>,
}

/// Texts joined by a separator.
pub open spec fn joined(rows: Seq<Seq<char>>, separator: Seq<char>) -> Seq<char>
    decreases rows.len(),
{
    if rows.len() == 0 {
        Seq::empty()
    } else if rows.len() == 1 {
        rows[0]
    } else {
        joined(rows.drop_last(), separator) + separator + rows.last()
    }
}

/// One row of the vertex table: three numbers as they are written,
/// separated by commas.
pub fn csv_row(x: &str, y: &str, z: &str) -> (row: String)
    ensures
        row@ == x@ + ","@ + y@ + ","@ + z@,
{
    let mut row = String::from_str(x);
    row.append(",");
    row.append(y);
    row.append(",");
    row.append(z);
    row
}

/// The vertex table as text: a header line, then the rows, one per line,
/// without a line end behind the last.
pub fn create_vertex_csv(rows: &Vec<String>) -> (csv: String)
    ensures
        csv@ == joined(seq!["x,y,z"@] + rows@.map_values(|r: String| r@), "\n"@),
{
    let ghost all = seq!["x,y,z"@] + rows@.map_values(|r: String| r@);
    let mut csv = String::from_str("x,y,z");
    let mut i: usize = 0;
    while i < rows.len()
        invariant
            i <= rows@.len(),
            all == seq!["x,y,z"@] + rows@.map_values(|r: String| r@),
            csv@ == joined(all.take(i + 1), "\n"@),
        decreases rows@.len() - i,
    {
        assert(all.take(i + 2).drop_last() =~= all.take(i + 1));
        csv.append("\n");
        csv.append(rows[i].as_str());
        i += 1;
    }
    assert(all.take(all.len() as int) =~= all);
    csv
}

} // verus!

//! The JSON document of a dataset: `{"teams":[...]}`, with each team as
//! `{"name":...,"drivers":[...]}` and each driver as `{"name":...,<attributes>}`.
//! Names and keys are written by serde_json; attribute values are JSON already.

use vstd::prelude::*;
use crate::dataset::{Dataset, Driver, DriverView, Field, FieldView, Team, TeamView};
use crate::json::{json_quoted, json_string};

verus! {

/// The texts one after the other, with a comma between each two.
pub open spec fn joined(parts: Seq<Seq<char>>) -> Seq<char>
    decreases parts.len(),
{
    if parts.len() == 0 {
        Seq::empty()
    } else if parts.len() == 1 {
        parts[0]
    } else {
        joined(parts.drop_last()) + seq![','] + parts.last()
    }
}

/// One attribute as a JSON member.
pub open spec fn field_json(f: FieldView) -> Seq<char> {
    json_quoted(f.0) + seq![':'] + f.1
}

/// The attributes of a driver as JSON members, each after a comma.
pub open spec fn fields_json(fs: Seq<FieldView>) -> Seq<char> {
    if fs.len() == 0 {
        Seq::empty()
    } else {
        seq![','] + joined(fs.map_values(|f: FieldView| field_json(f)))
    }
}

/// A driver as a JSON object.
pub open spec fn driver_json(d: DriverView) -> Seq<char> {
    "{\"name\":"@ + json_quoted(d.0) + fields_json(d.1) + seq!['}']
}

/// A list of drivers as a JSON array.
pub open spec fn drivers_json(ds: Seq<DriverView>) -> Seq<char> {
    seq!['['] + joined(ds.map_values(|d: DriverView| driver_json(d))) + seq![']']
}

/// A team as a JSON object.
pub open spec fn team_json(t: TeamView) -> Seq<char> {
    "{\"name\":"@ + json_quoted(t.0) + ",\"drivers\":"@ + drivers_json(t.1) + seq!['}']
}

/// The whole dataset as one JSON document.
pub open spec fn document_json(ts: Seq<TeamView>) -> Seq<char> {
    "{\"teams\":["@ + joined(ts.map_values(|t: TeamView| team_json(t))) + "]}"@
}

/// Adding one more part to a joined text.
proof fn lemma_joined_push(parts: Seq<Seq<char>>, i: int)
    requires
        0 <= i < parts.len(),
    ensures
        joined(parts.take(i + 1)) == if i == 0 {
            parts[0]
        } else {
            joined(parts.take(i)) + seq![','] + parts[i]
        },
{
    let t = parts.take(i + 1);
    assert(t.drop_last() =~= parts.take(i));
    if i == 0 {
        assert(t.len() == 1);
    }
}

/// Once a team is added, the document shows it: the team's JSON object, with its
/// name and its list of drivers, stands in the document whole.
pub proof fn law_added_team_is_listed(ts: Seq<TeamView>, t: TeamView)
    ensures
        exists|a: Seq<char>, b: Seq<char>| document_json(ts.push(t)) == a + team_json(t) + b,
{
    let parts = ts.push(t).map_values(|x: TeamView| team_json(x));
    let prev = ts.map_values(|x: TeamView| team_json(x));
    assert(parts.drop_last() =~= prev);
    assert(parts.last() == team_json(t));
    let head = "{\"teams\":["@;
    let tail = "]}"@;
    if ts.len() == 0 {
        assert(parts.len() == 1);
        assert(document_json(ts.push(t)) =~= head + team_json(t) + tail);
    } else {
        let a = head + joined(prev) + seq![','];
        assert(document_json(ts.push(t)) =~= a + team_json(t) + tail);
    }
}

/// One attribute as a JSON member.
fn write_field(f: &Field, out: &mut String)
    ensures
        final(out)@ == old(out)@ + field_json(f@),
{
    out.append(json_string(f.key.as_str()).as_str());
    out.append(":");
    out.append(f.value.as_str());
    proof {
        reveal_strlit(":");
    }
    assert(final(out)@ =~= old(out)@ + field_json(f@));
}

/// A driver as a JSON object.
fn write_driver(d: &Driver, out: &mut String)
    ensures
        final(out)@ == old(out)@ + driver_json(d@),
{
    let ghost start = out@;
    out.append("{\"name\":");
    out.append(json_string(d.name.as_str()).as_str());
    let ghost head = out@;
    let ghost parts = d@.1.map_values(|f: FieldView| field_json(f));
    let mut i: usize = 0;
    while i < d.fields.len()
        invariant
            i <= d.fields@.len(),
            parts == d@.1.map_values(|f: FieldView| field_json(f)),
            parts.len() == d.fields@.len(),
            i == 0 ==> out@ == head,
            i > 0 ==> out@ == head + seq![','] + joined(parts.take(i as int)),
        decreases d.fields@.len() - i,
    {
        proof {
            reveal_strlit(",");
            lemma_joined_push(parts, i as int);
            assert(parts[i as int] == field_json(d.fields@[i as int]@));
        }
        let ghost before = out@;
        out.append(",");
        write_field(&d.fields[i], out);
        proof {
            if i == 0 {
                assert(out@ =~= head + seq![','] + joined(parts.take(1)));
            } else {
                assert(out@ =~= head + seq![','] + joined(parts.take(i as int + 1)));
            }
        }
        i += 1;
    }
    out.append("}");
    proof {
        reveal_strlit("}");
        assert(parts.take(parts.len() as int) =~= parts);
        assert(final(out)@ =~= start + driver_json(d@));
    }
}

/// A team as a JSON object.
fn write_team(t: &Team, out: &mut String)
    ensures
        final(out)@ == old(out)@ + team_json(t@),
{
    let ghost start = out@;
    out.append("{\"name\":");
    out.append(json_string(t.name.as_str()).as_str());
    out.append(",\"drivers\":");
    out.append("[");
    let ghost head = out@;
    let ghost parts = t@.1.map_values(|d: DriverView| driver_json(d));
    let mut i: usize = 0;
    while i < t.drivers.len()
        invariant
            i <= t.drivers@.len(),
            parts == t@.1.map_values(|d: DriverView| driver_json(d)),
            parts.len() == t.drivers@.len(),
            out@ == head + joined(parts.take(i as int)),
        decreases t.drivers@.len() - i,
    {
        proof {
            reveal_strlit(",");
            lemma_joined_push(parts, i as int);
            assert(parts[i as int] == driver_json(t.drivers@[i as int]@));
        }
        if i > 0 {
            out.append(",");
        }
        write_driver(&t.drivers[i], out);
        assert(out@ =~= head + joined(parts.take(i as int + 1)));
        i += 1;
    }
    out.append("]}");
    proof {
        reveal_strlit("[");
        reveal_strlit("]}");
        assert(parts.take(parts.len() as int) =~= parts);
        assert(final(out)@ =~= start + team_json(t@));
    }
}

impl Dataset {
    /// The dataset as one JSON document, as it is served and stored.
    pub fn to_json(&self) -> (r: String)
        ensures
            r@ == document_json(self@),
    {
        let mut out = "{\"teams\":[".to_owned();
        let ghost head = out@;
        let ghost parts = self@.map_values(|t: TeamView| team_json(t));
        let mut i: usize = 0;
        while i < self.len()
            invariant
                i <= self@.len(),
                head == "{\"teams\":["@,
                parts == self@.map_values(|t: TeamView| team_json(t)),
                parts.len() == self@.len(),
                out@ == head + joined(parts.take(i as int)),
            decreases self@.len() - i,
        {
            proof {
                reveal_strlit(",");
                lemma_joined_push(parts, i as int);
            }
            if i > 0 {
                out.append(",");
            }
            let t = self.team(i);
            write_team(t, &mut out);
            assert(out@ =~= head + joined(parts.take(i as int + 1)));
            i += 1;
        }
        out.append("]}");
        proof {
            assert(parts.take(parts.len() as int) =~= parts);
            assert(out@ =~= document_json(self@));
        }
        out
    }
}

} // verus!

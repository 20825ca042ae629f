//! The dataset store: teams with unique names, each with drivers whose names are
//! unique within the team, and an open map of attributes per driver.

use vstd::prelude::*;

verus! {

/// One attribute of a driver: its key, and its value written as JSON text.
#[derive(Debug)]
pub struct Field {
    pub key: String,
    pub value: String,
}

/// A driver: a name, and attributes such as age or nationality.
#[derive(Debug)]
pub struct Driver {
    pub name: String,
    pub fields: Vec<Field>,
}

/// A team: a name and its drivers, in order.
#[derive(Debug)]
pub struct Team {
    pub name: String,
    pub drivers: Vec<Driver>,
}

pub type FieldView = (Seq<char>, Seq<char>);

pub type DriverView = (Seq<char>, Seq<FieldView>);

pub type TeamView = (Seq<char>, Seq<DriverView>);

impl View for Field {
    type V = FieldView;

    open spec fn view(&self) -> FieldView {
        (self.key@, self.value@)
    }
}

pub open spec fn field_views(fs: Seq<Field>) -> Seq<FieldView> {
    fs.map_values(|f: Field| f@)
}

impl View for Driver {
    type V = DriverView;

    open spec fn view(&self) -> DriverView {
        (self.name@, field_views(self.fields@))
    }
}

pub open spec fn driver_views(ds: Seq<Driver>) -> Seq<DriverView> {
    ds.map_values(|d: Driver| d@)
}

impl View for Team {
    type V = TeamView;

    open spec fn view(&self) -> TeamView {
        (self.name@, driver_views(self.drivers@))
    }
}

pub open spec fn team_views(ts: Seq<Team>) -> Seq<TeamView> {
    ts.map_values(|t: Team| t@)
}

/// Some team has this name.
pub open spec fn has_team(ts: Seq<TeamView>, name: Seq<char>) -> bool {
    exists|i: int| 0 <= i < ts.len() && ts[i].0 == name
}

/// The place of the team with this name.
pub open spec fn team_position(ts: Seq<TeamView>, name: Seq<char>) -> int {
    choose|i: int| 0 <= i < ts.len() && ts[i].0 == name
}

/// Some driver has this name.
pub open spec fn has_driver(ds: Seq<DriverView>, name: Seq<char>) -> bool {
    exists|i: int| 0 <= i < ds.len() && ds[i].0 == name
}

/// The place of the driver with this name.
pub open spec fn driver_position(ds: Seq<DriverView>, name: Seq<char>) -> int {
    choose|i: int| 0 <= i < ds.len() && ds[i].0 == name
}

/// No two drivers share a name.
pub open spec fn drivers_unique(ds: Seq<DriverView>) -> bool {
    forall|i: int, j: int| 0 <= i < j < ds.len() ==> #[trigger] ds[i].0 != #[trigger] ds[j].0
}

/// Team names are unique, and driver names are unique within each team.
pub open spec fn dataset_wf(ts: Seq<TeamView>) -> bool {
    &&& forall|i: int, j: int| 0 <= i < j < ts.len() ==> #[trigger] ts[i].0 != #[trigger] ts[j].0
    &&& forall|i: int| 0 <= i < ts.len() ==> drivers_unique(#[trigger] ts[i].1)
}

/// The key that names a driver; a patch does not change it.
pub open spec fn name_key() -> Seq<char> {
    seq!['n', 'a', 'm', 'e']
}

/// The fields with one update merged in: every field with its key takes its value,
/// or it is added at the end where no field has that key. An update of the name is
/// passed over.
pub open spec fn with_field(fs: Seq<FieldView>, u: FieldView) -> Seq<FieldView> {
    if u.0 == name_key() {
        fs
    } else if exists|i: int| 0 <= i < fs.len() && fs[i].0 == u.0 {
        fs.map_values(|f: FieldView| if f.0 == u.0 { (f.0, u.1) } else { f })
    } else {
        fs.push(u)
    }
}

/// The fields with the updates merged in, one after the other.
pub open spec fn merged(fs: Seq<FieldView>, us: Seq<FieldView>) -> Seq<FieldView>
    decreases us.len(),
{
    if us.len() == 0 {
        fs
    } else {
        with_field(merged(fs, us.drop_last()), us.last())
    }
}

/// The value of the first field with this key.
pub open spec fn field_value(fs: Seq<FieldView>, key: Seq<char>) -> Option<Seq<char>>
    decreases fs.len(),
{
    if fs.len() == 0 {
        None
    } else if fs[0].0 == key {
        Some(fs[0].1)
    } else {
        field_value(fs.skip(1), key)
    }
}

/// Why an operation on the dataset was refused.
#[derive(Debug)]
pub enum DatasetError {
    /// A team with this name exists already.
    DuplicateTeam(String),
    /// No team has this name.
    TeamNotFound(String),
    /// The team has no driver with this name.
    DriverNotFound { team: String, driver: String },
    /// The team with this name lists two drivers of one name.
    DuplicateDriver(String),
}

/// Team names are unique and driver names unique within each team.
pub struct Dataset {
    teams: Vec<Team>,
}

impl View for Dataset {
    type V = Seq<TeamView>;

    closed spec fn view(&self) -> Seq<TeamView> {
        team_views(self.teams@)
    }
}

impl Dataset {
    /// Team names are unique, and driver names unique within each team.
    pub open spec fn wf(&self) -> bool {
        dataset_wf(self@)
    }

    /// Holds of every dataset.
    #[verifier::type_invariant]
    spec fn inv(&self) -> bool {
        dataset_wf(team_views(self.teams@))
    }

    /// Takes the teams out, leaving none.
    fn take_teams(&mut self) -> (r: Vec<Team>)
        ensures
            team_views(r@) == old(self)@,
            final(self)@.len() == 0,
    {
        let mut r: Vec<Team> = Vec::new();
        assert(dataset_wf(team_views(r@)));
        std::mem::swap(&mut r, &mut self.teams);
        r
    }

    /// Puts teams back in place of none.
    fn restore_teams(&mut self, teams: Vec<Team>)
        requires
            dataset_wf(team_views(teams@)),
        ensures
            final(self)@ == team_views(teams@),
    {
        self.teams = teams;
    }

    /// An empty dataset.
    pub fn new() -> (r: Dataset)
        ensures
            r.wf(),
            r@.len() == 0,
    {
        let r = Dataset { teams: Vec::new() };
        assert(r@ =~= Seq::<TeamView>::empty());
        r
    }

    /// How many teams there are. Calling it also makes the dataset's invariant
    /// known to the caller.
    pub fn len(&self) -> (r: usize)
        ensures
            r == self@.len(),
            self.wf(),
    {
        proof {
            use_type_invariant(self);
        }
        self.teams.len()
    }

    /// The team at place `i`.
    pub fn team(&self, i: usize) -> (r: &Team)
        requires
            i < self@.len(),
        ensures
            r@ == self@[i as int],
            self.wf(),
    {
        proof {
            use_type_invariant(self);
        }
        &self.teams[i]
    }

    /// The place of the team with this name.
    pub fn find_team(&self, name: &String) -> (r: Option<usize>)
        ensures
            r is None <==> !has_team(self@, name@),
            r matches Some(i) ==> i < self@.len() && self@[i as int].0 == name@,
            r matches Some(i) ==> team_position(self@, name@) == i,
            self.wf(),
    {
        proof {
            use_type_invariant(self);
        }
        let mut i: usize = 0;
        while i < self.teams.len()
            invariant
                i <= self@.len(),
                dataset_wf(self@),
                forall|j: int| 0 <= j < i ==> self@[j].0 != name@,
            decreases self@.len() - i,
        {
            assert(self@[i as int].0 == self.teams@[i as int].name@);
            if self.teams[i].name == *name {
                proof {
                    lemma_position_is_unique(self@, name@, i as int);
                }
                return Some(i);
            }
            i += 1;
        }
        None
    }
}

/// The place of the driver with this name.
fn find_driver(ds: &Vec<Driver>, name: &String) -> (r: Option<usize>)
    ensures
        r is None <==> !has_driver(driver_views(ds@), name@),
        r matches Some(i) ==> i < ds@.len() && ds@[i as int].name@ == name@,
{
    let mut i: usize = 0;
    while i < ds.len()
        invariant
            i <= ds@.len(),
            forall|j: int| 0 <= j < i ==> ds@[j].name@ != name@,
        decreases ds@.len() - i,
    {
        if ds[i].name == *name {
            assert(driver_views(ds@)[i as int] == ds@[i as int]@);
            return Some(i);
        }
        i += 1;
    }
    proof {
        let v = driver_views(ds@);
        assert forall|j: int| 0 <= j < v.len() implies v[j].0 != name@ by {
            assert(v[j] == ds@[j]@);
        }
    }
    None
}

/// Whether no two drivers share a name.
fn unique_driver_names(ds: &Vec<Driver>) -> (r: bool)
    ensures
        r == drivers_unique(driver_views(ds@)),
{
    let ghost v = driver_views(ds@);
    let mut j: usize = 0;
    while j < ds.len()
        invariant
            v == driver_views(ds@),
            j <= ds@.len(),
            forall|a: int, b: int| 0 <= a < b < j ==> #[trigger] v[a].0 != #[trigger] v[b].0,
            v.len() == ds@.len(),
        decreases ds@.len() - j,
    {
        let mut i: usize = 0;
        while i < j
            invariant
                v == driver_views(ds@),
                i <= j < ds@.len(),
                v.len() == ds@.len(),
                forall|a: int| 0 <= a < i ==> #[trigger] v[a].0 != v[j as int].0,
            decreases j - i,
        {
            assert(v[i as int] == ds@[i as int]@ && v[j as int] == ds@[j as int]@);
            if ds[i].name == ds[j].name {
                assert(v[i as int].0 == v[j as int].0);
                assert(!drivers_unique(v));
                return false;
            }
            i += 1;
        }
        j += 1;
    }
    true
}

/// Merges one update into the fields.
fn apply_field(fields: &mut Vec<Field>, u: &Field)
    ensures
        field_views(final(fields)@) == with_field(field_views(old(fields)@), u@),
{
    let ghost fs = field_views(fields@);
    let name = "name".to_owned();
    proof {
        reveal_strlit("name");
        assert(name@ =~= name_key());
    }
    if u.key == name {
        return ;
    }
    let ghost f = |g: FieldView| if g.0 == u@.0 { (g.0, u@.1) } else { g };
    let mut found: bool = false;
    let mut j: usize = 0;
    while j < fields.len()
        invariant
            fs.len() == fields@.len(),
            j <= fs.len(),
            f == (|g: FieldView| if g.0 == u@.0 { (g.0, u@.1) } else { g }),
            forall|i: int| 0 <= i < j ==> #[trigger] field_views(fields@)[i] == f(fs[i]),
            forall|i: int| j <= i < fs.len() ==> #[trigger] field_views(fields@)[i] == fs[i],
            found == exists|i: int| 0 <= i < j && fs[i].0 == u@.0,
        decreases fs.len() - j,
    {
        assert(field_views(fields@)[j as int] == fields@[j as int]@);
        if fields[j].key == u.key {
            let updated = Field { key: fields[j].key.clone(), value: u.value.clone() };
            let ghost raw = fields@;
            let ghost uv = updated@;
            fields.set(j, updated);
            found = true;
            proof {
                assert(fields@ == raw.update(j as int, updated));
                assert(field_views(fields@) =~= field_views(raw).update(j as int, uv));
            }
        }
        j += 1;
    }
    if !found {
        assert forall|i: int| 0 <= i < fs.len() implies #[trigger] field_views(fields@)[i]
            == fs[i] by {
            assert(fs[i].0 != u@.0);
        }
        assert(field_views(fields@) =~= fs);
        fields.push(Field { key: u.key.clone(), value: u.value.clone() });
        assert(field_views(fields@) =~= fs.push(u@));
    } else {
        assert(field_views(fields@) =~= fs.map_values(f));
    }
}

/// Merges the updates into the fields, one after the other.
fn merge_fields(fields: &mut Vec<Field>, updates: &Vec<Field>)
    ensures
        field_views(final(fields)@) == merged(field_views(old(fields)@), field_views(updates@)),
{
    let ghost fs = field_views(fields@);
    let ghost us = field_views(updates@);
    let mut k: usize = 0;
    while k < updates.len()
        invariant
            fs == field_views(old(fields)@),
            us == field_views(updates@),
            k <= us.len(),
            field_views(fields@) == merged(fs, us.take(k as int)),
        decreases us.len() - k,
    {
        proof {
            assert(us.take(k as int + 1).drop_last() =~= us.take(k as int));
            assert(us.take(k as int + 1).last() == updates@[k as int]@);
        }
        apply_field(fields, &updates[k]);
        k += 1;
    }
    assert(us.take(us.len() as int) =~= us);
}

/// Adds a team at the end.
pub fn post_team(new_team: Team, data: &mut Dataset) -> (r: Result<(), DatasetError>)
    ensures
        final(data).wf(),
        has_team(old(data)@, new_team@.0) ==> (r matches Err(DatasetError::DuplicateTeam(n)) && n@
            == new_team@.0 && final(data)@ == old(data)@),
        !has_team(old(data)@, new_team@.0) && !drivers_unique(new_team@.1) ==> (r matches Err(
            DatasetError::DuplicateDriver(n),
        ) && n@ == new_team@.0 && final(data)@ == old(data)@),
        !has_team(old(data)@, new_team@.0) && drivers_unique(new_team@.1) ==> (r is Ok
            && final(data)@ == old(data)@.push(new_team@)),
{
    proof {
        use_type_invariant(&*data);
    }
    if data.find_team(&new_team.name).is_some() {
        return Err(DatasetError::DuplicateTeam(new_team.name));
    }
    if !unique_driver_names(&new_team.drivers) {
        return Err(DatasetError::DuplicateDriver(new_team.name));
    }
    let ghost before = data@;
    let ghost t = new_team@;
    let mut teams = data.take_teams();
    teams.push(new_team);
    proof {
        assert(team_views(teams@) =~= before.push(t));
        law_create_twice(before, t, t);
    }
    data.restore_teams(teams);
    Ok(())
}

/// Replaces the team with this name, in its place. Nothing changes where no team has
/// the name, where the new team takes the name of another team, or where it lists
/// two drivers of one name.
pub fn put_team(team_name: &str, new_team: Team, data: &mut Dataset) -> (r: Result<
    (),
    DatasetError,
>)
    ensures
        final(data).wf(),
        !has_team(old(data)@, team_name@) ==> (r matches Err(DatasetError::TeamNotFound(n)) && n@
            == team_name@ && final(data)@ == old(data)@),
        has_team(old(data)@, team_name@) && new_team@.0 != team_name@ && has_team(
            old(data)@,
            new_team@.0,
        ) ==> (r matches Err(DatasetError::DuplicateTeam(n)) && n@ == new_team@.0 && final(data)@
            == old(data)@),
        has_team(old(data)@, team_name@) && (new_team@.0 == team_name@ || !has_team(
            old(data)@,
            new_team@.0,
        )) && !drivers_unique(new_team@.1) ==> (r matches Err(DatasetError::DuplicateDriver(n))
            && n@ == new_team@.0 && final(data)@ == old(data)@),
        has_team(old(data)@, team_name@) && (new_team@.0 == team_name@ || !has_team(
            old(data)@,
            new_team@.0,
        )) && drivers_unique(new_team@.1) ==> (r is Ok && final(data)@ == old(data)@.update(
            team_position(old(data)@, team_name@),
            new_team@,
        )),
{
    proof {
        use_type_invariant(&*data);
    }
    let name = team_name.to_owned();
    let pos = match data.find_team(&name) {
        Some(i) => i,
        None => {
            return Err(DatasetError::TeamNotFound(name));
        },
    };
    if new_team.name != name && data.find_team(&new_team.name).is_some() {
        return Err(DatasetError::DuplicateTeam(new_team.name));
    }
    if !unique_driver_names(&new_team.drivers) {
        return Err(DatasetError::DuplicateDriver(new_team.name));
    }
    let ghost before = data@;
    let ghost t = new_team@;
    proof {
        lemma_position_is_unique(before, team_name@, pos as int);
    }
    let mut teams = data.take_teams();
    teams.set(pos, new_team);
    proof {
        let after = team_views(teams@);
        assert(after =~= before.update(pos as int, t));
        assert forall|i: int, j: int| 0 <= i < j < after.len() implies #[trigger] after[i].0
            != #[trigger] after[j].0 by {
            if i == pos {
                assert(after[j] == before[j]);
            } else if j == pos {
                assert(after[i] == before[i]);
            } else {
                assert(after[i] == before[i] && after[j] == before[j]);
            }
        }
        assert forall|i: int| 0 <= i < after.len() implies drivers_unique(#[trigger] after[i].1) by {
            if i != pos {
                assert(after[i] == before[i]);
            }
        }
    }
    data.restore_teams(teams);
    Ok(())
}

/// In a dataset with unique team names, the team found under a name is the one
/// `team_position` names.
pub proof fn lemma_position_is_unique(ts: Seq<TeamView>, name: Seq<char>, i: int)
    requires
        dataset_wf(ts),
        0 <= i < ts.len(),
        ts[i].0 == name,
    ensures
        team_position(ts, name) == i,
{
    let j = team_position(ts, name);
    if j < i {
        assert(ts[j].0 != ts[i].0);
    } else if j > i {
        assert(ts[i].0 != ts[j].0);
    }
}

/// In a list of drivers with unique names, the driver found under a name is the one
/// `driver_position` names.
proof fn lemma_driver_position_is_unique(ds: Seq<DriverView>, name: Seq<char>, i: int)
    requires
        drivers_unique(ds),
        0 <= i < ds.len(),
        ds[i].0 == name,
    ensures
        driver_position(ds, name) == i,
{
    let j = driver_position(ds, name);
    if j < i {
        assert(ds[j].0 != ds[i].0);
    } else if j > i {
        assert(ds[i].0 != ds[j].0);
    }
}

/// Removes the team with this name; nothing changes where no team has it.
pub fn delete_team(team_name: &str, data: &mut Dataset) -> (r: Result<(), DatasetError>)
    ensures
        final(data).wf(),
        !has_team(old(data)@, team_name@) ==> (r matches Err(DatasetError::TeamNotFound(n)) && n@
            == team_name@ && final(data)@ == old(data)@),
        has_team(old(data)@, team_name@) ==> (r is Ok && final(data)@ == old(data)@.remove(
            team_position(old(data)@, team_name@),
        )),
{
    proof {
        use_type_invariant(&*data);
    }
    let name = team_name.to_owned();
    let pos = match data.find_team(&name) {
        Some(i) => i,
        None => {
            return Err(DatasetError::TeamNotFound(name));
        },
    };
    let ghost before = data@;
    proof {
        lemma_position_is_unique(before, team_name@, pos as int);
    }
    let mut teams = data.take_teams();
    let _removed = teams.remove(pos);
    proof {
        let after = team_views(teams@);
        assert(after =~= before.remove(pos as int));
        assert forall|i: int, j: int| 0 <= i < j < after.len() implies #[trigger] after[i].0
            != #[trigger] after[j].0 by {
            let a = if i < pos { i } else { i + 1 };
            let b = if j < pos { j } else { j + 1 };
            assert(after[i] == before[a] && after[j] == before[b]);
        }
        assert forall|i: int| 0 <= i < after.len() implies drivers_unique(#[trigger] after[i].1) by {
            let a = if i < pos { i } else { i + 1 };
            assert(after[i] == before[a]);
        }
    }
    data.restore_teams(teams);
    Ok(())
}

/// The dataset after merging updates into one driver of one team.
pub open spec fn patched(
    ts: Seq<TeamView>,
    team_name: Seq<char>,
    driver_name: Seq<char>,
    updates: Seq<FieldView>,
) -> Seq<TeamView> {
    let ti = team_position(ts, team_name);
    let t = ts[ti];
    let di = driver_position(t.1, driver_name);
    let d = t.1[di];
    ts.update(ti, (t.0, t.1.update(di, (d.0, merged(d.1, updates)))))
}

/// Merges the given fields into the attributes of one driver of one team; the
/// driver's name stays. Nothing changes where the team or the driver is missing.
pub fn patch_driver(
    team_name: &str,
    driver_name: &str,
    updated_data: Vec<Field>,
    data: &mut Dataset,
) -> (r: Result<(), DatasetError>)
    ensures
        final(data).wf(),
        !has_team(old(data)@, team_name@) ==> (r matches Err(DatasetError::TeamNotFound(n)) && n@
            == team_name@ && final(data)@ == old(data)@),
        has_team(old(data)@, team_name@) && !has_driver(
            old(data)@[team_position(old(data)@, team_name@)].1,
            driver_name@,
        ) ==> (r matches Err(DatasetError::DriverNotFound { team, driver }) && team@ == team_name@
            && driver@ == driver_name@ && final(data)@ == old(data)@),
        has_team(old(data)@, team_name@) && has_driver(
            old(data)@[team_position(old(data)@, team_name@)].1,
            driver_name@,
        ) ==> (r is Ok && final(data)@ == patched(
            old(data)@,
            team_name@,
            driver_name@,
            field_views(updated_data@),
        )),
{
    proof {
        use_type_invariant(&*data);
    }
    let tname = team_name.to_owned();
    let dname = driver_name.to_owned();
    let ti = match data.find_team(&tname) {
        Some(i) => i,
        None => {
            return Err(DatasetError::TeamNotFound(tname));
        },
    };
    let ghost before = data@;
    proof {
        lemma_position_is_unique(before, team_name@, ti as int);
        assert(before[ti as int] == data.teams@[ti as int]@);
    }
    let di = match find_driver(&data.teams[ti].drivers, &dname) {
        Some(i) => i,
        None => {
            return Err(DatasetError::DriverNotFound { team: tname, driver: dname });
        },
    };
    proof {
        assert(before[ti as int].1[di as int] == data.teams@[ti as int].drivers@[di as int]@);
        lemma_driver_position_is_unique(before[ti as int].1, driver_name@, di as int);
    }
    let mut teams = data.take_teams();
    let mut team = teams.remove(ti);
    let ghost t = team@;
    let mut driver = team.drivers.remove(di);
    let ghost d = driver@;
    merge_fields(&mut driver.fields, &updated_data);
    team.drivers.insert(di, driver);
    proof {
        assert(team@.1 =~= t.1.update(di as int, (d.0, merged(d.1, field_views(updated_data@)))));
    }
    teams.insert(ti, team);
    proof {
        let after = patched(before, team_name@, driver_name@, field_views(updated_data@));
        assert(team_views(teams@) =~= after);
        assert forall|i: int, j: int| 0 <= i < j < after.len() implies #[trigger] after[i].0
            != #[trigger] after[j].0 by {
            assert(after[i].0 == before[i].0 && after[j].0 == before[j].0);
        }
        assert forall|i: int| 0 <= i < after.len() implies drivers_unique(#[trigger] after[i].1) by {
            if i == ti {
                let nd = after[i].1;
                let od = before[i].1;
                assert(drivers_unique(od));
                assert forall|a: int, b: int| 0 <= a < b < nd.len() implies #[trigger] nd[a].0
                    != #[trigger] nd[b].0 by {
                    assert(nd[a].0 == od[a].0);
                    assert(nd[b].0 == od[b].0);
                }
            } else {
                assert(after[i] == before[i]);
            }
        }
    }
    data.restore_teams(teams);
    Ok(())
}

/// Two teams with different names, neither of them in the dataset and each with
/// drivers of distinct names, are both added: the dataset grows by two. A second team
/// under a name that was just added is refused: the dataset grew by one.
pub proof fn law_create_twice(ts: Seq<TeamView>, a: TeamView, b: TeamView)
    requires
        dataset_wf(ts),
        !has_team(ts, a.0),
        drivers_unique(a.1),
    ensures
        dataset_wf(ts.push(a)),
        has_team(ts.push(a), a.0),
        ts.push(a).len() == ts.len() + 1,
        b.0 != a.0 && !has_team(ts, b.0) ==> !has_team(ts.push(a), b.0),
        ts.push(a).push(b).len() == ts.len() + 2,
{
    let s = ts.push(a);
    assert(s[ts.len() as int] == a);
    assert forall|i: int, j: int| 0 <= i < j < s.len() implies #[trigger] s[i].0 != #[trigger] s[j].0 by {
        if j == ts.len() {
            assert(s[i] == ts[i]);
        } else {
            assert(s[i] == ts[i] && s[j] == ts[j]);
        }
    }
    assert forall|i: int| 0 <= i < s.len() implies drivers_unique(#[trigger] s[i].1) by {
        if i < ts.len() {
            assert(s[i] == ts[i]);
        }
    }
    if b.0 != a.0 && !has_team(ts, b.0) {
        assert forall|i: int| 0 <= i < s.len() implies s[i].0 != b.0 by {
            if i < ts.len() {
                assert(s[i] == ts[i]);
            }
        }
    }
}

/// Teams whose names differ from each other and from every team of the dataset,
/// each with drivers of distinct names, are all added, in any order in which they
/// come: before each of them its name is free, and in the end the dataset has
/// grown by their number.
pub proof fn law_create_many(ts: Seq<TeamView>, news: Seq<TeamView>)
    requires
        dataset_wf(ts),
        forall|i: int| 0 <= i < news.len() ==> !has_team(ts, #[trigger] news[i].0),
        forall|i: int| 0 <= i < news.len() ==> drivers_unique(#[trigger] news[i].1),
        forall|i: int, j: int| 0 <= i < j < news.len() ==> #[trigger] news[i].0 != #[trigger] news[j].0,
    ensures
        forall|k: int|
            0 <= k < news.len() ==> dataset_wf(#[trigger] (ts + news.take(k))) && !has_team(
                ts + news.take(k),
                news[k].0,
            ) && (ts + news.take(k)).push(news[k]) == ts + news.take(k + 1),
        (ts + news).len() == ts.len() + news.len(),
{
    assert forall|k: int| 0 <= k < news.len() implies dataset_wf(#[trigger] (ts + news.take(k)))
        && !has_team(ts + news.take(k), news[k].0) && (ts + news.take(k)).push(news[k]) == ts
        + news.take(k + 1) by {
        let s = ts + news.take(k);
        assert forall|i: int, j: int| 0 <= i < j < s.len() implies #[trigger] s[i].0
            != #[trigger] s[j].0 by {
            if j < ts.len() {
                assert(s[i] == ts[i] && s[j] == ts[j]);
            } else if i < ts.len() {
                assert(s[i] == ts[i] && s[j] == news[j - ts.len()]);
                assert(ts[i].0 == s[i].0);
            } else {
                assert(s[i] == news[i - ts.len()] && s[j] == news[j - ts.len()]);
            }
        }
        assert forall|i: int| 0 <= i < s.len() implies drivers_unique(#[trigger] s[i].1) by {
            if i < ts.len() {
                assert(s[i] == ts[i]);
            } else {
                assert(s[i] == news[i - ts.len()]);
            }
        }
        assert forall|i: int| 0 <= i < s.len() implies s[i].0 != news[k].0 by {
            if i < ts.len() {
                assert(s[i] == ts[i]);
            } else {
                assert(s[i] == news[i - ts.len()]);
            }
        }
        assert(s.push(news[k]) =~= ts + news.take(k + 1));
    }
}

/// Replacing a team keeps the number of teams.
pub proof fn law_replace_keeps_size(ts: Seq<TeamView>, name: Seq<char>, t: TeamView)
    requires
        has_team(ts, name),
    ensures
        0 <= team_position(ts, name) < ts.len(),
        ts.update(team_position(ts, name), t).len() == ts.len(),
{
}

/// Deleting a team takes one team away, and the name is then free: a second
/// delete of it finds no team.
pub proof fn law_delete_twice(ts: Seq<TeamView>, name: Seq<char>)
    requires
        dataset_wf(ts),
        has_team(ts, name),
    ensures
        ts.remove(team_position(ts, name)).len() == ts.len() - 1,
        !has_team(ts.remove(team_position(ts, name)), name),
{
    let p = team_position(ts, name);
    let s = ts.remove(p);
    assert forall|i: int| 0 <= i < s.len() implies s[i].0 != name by {
        if i < p {
            assert(s[i] == ts[i]);
            assert(ts[i].0 != ts[p].0);
        } else {
            assert(s[i] == ts[i + 1]);
            assert(ts[p].0 != ts[i + 1].0);
        }
    }
}

/// The value of the last update with this key.
pub open spec fn last_update(us: Seq<FieldView>, key: Seq<char>) -> Option<Seq<char>>
    decreases us.len(),
{
    if us.len() == 0 {
        None
    } else if us.last().0 == key {
        Some(us.last().1)
    } else {
        last_update(us.drop_last(), key)
    }
}

proof fn lemma_field_value_of_set(gs: Seq<FieldView>, u: FieldView, key: Seq<char>)
    ensures
        key != u.0 ==> field_value(
            gs.map_values(|f: FieldView| if f.0 == u.0 { (f.0, u.1) } else { f }),
            key,
        ) == field_value(gs, key),
        key == u.0 && (exists|i: int| 0 <= i < gs.len() && gs[i].0 == u.0) ==> field_value(
            gs.map_values(|f: FieldView| if f.0 == u.0 { (f.0, u.1) } else { f }),
            key,
        ) == Some(u.1),
    decreases gs.len(),
{
    let m = gs.map_values(|f: FieldView| if f.0 == u.0 { (f.0, u.1) } else { f });
    if gs.len() > 0 {
        let rest = gs.skip(1);
        let mr = rest.map_values(|f: FieldView| if f.0 == u.0 { (f.0, u.1) } else { f });
        assert(m.skip(1) =~= mr);
        assert(m[0] == (if gs[0].0 == u.0 { (gs[0].0, u.1) } else { gs[0] }));
        lemma_field_value_of_set(rest, u, key);
        if key == u.0 && gs[0].0 != u.0 && (exists|i: int| 0 <= i < gs.len() && gs[i].0 == u.0) {
            let i = choose|i: int| 0 <= i < gs.len() && gs[i].0 == u.0;
            assert(rest[i - 1] == gs[i]);
        }
    }
}

proof fn lemma_field_value_of_push(gs: Seq<FieldView>, u: FieldView, key: Seq<char>)
    requires
        forall|i: int| 0 <= i < gs.len() ==> gs[i].0 != u.0,
    ensures
        field_value(gs.push(u), key) == if key == u.0 {
            Some(u.1)
        } else {
            field_value(gs, key)
        },
    decreases gs.len(),
{
    if gs.len() > 0 {
        let rest = gs.skip(1);
        assert(gs.push(u).skip(1) =~= rest.push(u));
        assert(gs.push(u)[0] == gs[0]);
        assert(gs[0].0 != u.0);
        assert forall|i: int| 0 <= i < rest.len() implies rest[i].0 != u.0 by {
            assert(rest[i] == gs[i + 1]);
        }
        lemma_field_value_of_push(rest, u, key);
        if gs[0].0 == key {
            assert(field_value(gs.push(u), key) == Some(gs[0].1));
            assert(field_value(gs, key) == Some(gs[0].1));
        } else {
            assert(field_value(gs.push(u), key) == field_value(rest.push(u), key));
            assert(field_value(gs, key) == field_value(rest, key));
        }
    } else {
        let one = gs.push(u);
        assert(one.skip(1) =~= Seq::<FieldView>::empty());
        assert(one[0] == u);
        assert(field_value(gs, key) == None::<Seq<char>>);
        if key != u.0 {
            assert(field_value(one, key) == field_value(one.skip(1), key));
        }
    }
}

/// A patch changes exactly the attributes it gives: after it, each key that it
/// gives (other than the name) holds the last value given for it, and every other
/// key holds what it held before.
pub proof fn law_patch_touches_only_given(fs: Seq<FieldView>, us: Seq<FieldView>, key: Seq<char>)
    ensures
        field_value(merged(fs, us), key) == if key != name_key() && last_update(us, key) is Some {
            last_update(us, key)
        } else {
            field_value(fs, key)
        },
    decreases us.len(),
{
    if us.len() > 0 {
        let prev = us.drop_last();
        let u = us.last();
        law_patch_touches_only_given(fs, prev, key);
        let gs = merged(fs, prev);
        if u.0 != name_key() {
            if exists|i: int| 0 <= i < gs.len() && gs[i].0 == u.0 {
                lemma_field_value_of_set(gs, u, key);
            } else {
                lemma_field_value_of_push(gs, u, key);
            }
        }
    }
}

} // verus!

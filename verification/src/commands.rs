//! The commands of the server finder, and which options go with which.
use crate::finder::{case_eq, option_view};
use crate::inventory::{
    cities, city_models, is_city_list, target_models, CityModel, CitySummary, NordTarget,
};
use crate::text::{ascii_lower_spec, decimal, decimal_spec};
use crate::unicode::{lowercase_spec, quoted, quoted_spec};
use vstd::prelude::*;
use vstd::string::*;
use vstd::utf8::is_ascii_chars;

verus! {

/// What the user wants.
#[derive(Clone, Copy, Debug, PartialEq, Eq, Structural)]
pub enum CommandKind {
    /// The list of cities.
    Cities,
    /// One confirmed server.
    Find,
    /// A private key.
    Key,
    /// The interactive screens.
    Screens,
}

/// Which options do not go with a command: a key file and an export directory belong to the
/// screens and to the search, which needs the first.
pub open spec fn option_refusal(kind: CommandKind, key_file: bool, export_directory: bool) -> Option<
    Seq<char>,
> {
    match kind {
        CommandKind::Cities | CommandKind::Key => if key_file {
            Some("--key-file is available only with the TUI or find"@)
        } else if export_directory {
            Some("--export-directory is available only with the TUI or find"@)
        } else {
            None
        },
        CommandKind::Find => if key_file {
            None
        } else {
            Some("find requires --key-file <PATH>"@)
        },
        CommandKind::Screens => None,
    }
}

/// Checks that the options go with the command.
pub fn check_options(kind: CommandKind, key_file: bool, export_directory: bool) -> (r: Result<
    (),
    String,
>)
    ensures
        match r {
            Ok(_) => option_refusal(kind, key_file, export_directory) is None,
            Err(message) => option_refusal(kind, key_file, export_directory) == Some(message@),
        },
{
    match kind {
        CommandKind::Cities | CommandKind::Key => {
            if key_file {
                return Err("--key-file is available only with the TUI or find".to_string());
            }
            if export_directory {
                return Err(
                    "--export-directory is available only with the TUI or find".to_string(),
                );
            }
        },
        CommandKind::Find => {
            if !key_file {
                return Err("find requires --key-file <PATH>".to_string());
            }
        },
        CommandKind::Screens => {},
    }
    Ok(())
}

/// The cities that are marked.
pub open spec fn marked_cities(list: Seq<CityModel>, marks: Seq<bool>) -> Seq<CityModel>
    decreases list.len(),
{
    if list.len() == 0 {
        Seq::empty()
    } else {
        let before = marked_cities(list.drop_last(), marks);
        if marks[list.len() - 1] {
            before.push(list.last())
        } else {
            before
        }
    }
}

/// Which cities lie in the country that the user names, case aside: all, where the user names none.
pub open spec fn country_marks(list: Seq<CityModel>, country: Option<Seq<char>>) -> Seq<bool> {
    Seq::new(
        list.len(),
        |i: int|
            match country {
                Some(country) => lowercase_spec(list[i].country) == lowercase_spec(country),
                None => true,
            },
    )
}

/// Which cities lie in the country that the user names, with the case of ASCII letters aside.
pub open spec fn ascii_country_marks(list: Seq<CityModel>, country: Option<Seq<char>>) -> Seq<
    bool,
> {
    Seq::new(
        list.len(),
        |i: int|
            match country {
                Some(country) => ascii_lower_spec(list[i].country) == ascii_lower_spec(country),
                None => true,
            },
    )
}

/// Whether the names of all countries hold ASCII characters alone, and so does the country that the
/// user names.
pub open spec fn has_ascii_countries(list: Seq<CityModel>, country: Option<Seq<char>>) -> bool {
    &&& country matches Some(country) ==> is_ascii_chars(country)
    &&& forall|i: int| 0 <= i < list.len() ==> is_ascii_chars((#[trigger] list[i]).country)
}

/// Why no city is listed.
pub open spec fn no_cities(country: Option<Seq<char>>) -> Seq<char> {
    match country {
        Some(country) => "no usable Nord candidates found for country "@ + quoted_spec(country),
        None => "Nord inventory contained no usable cities"@,
    }
}

/// The cities that are marked. None at all is an error, in which the country is named.
pub fn list_marked(list: &Vec<CitySummary>, marks: &Vec<bool>, country: Option<&str>) -> (r: Result<
    Vec<CitySummary>,
    String,
>)
    requires
        list@.len() == marks@.len(),
    ensures
        match r {
            Ok(found) => found@.len() > 0 && city_models(found@) == marked_cities(
                city_models(list@),
                marks@,
            ),
            Err(message) => marked_cities(city_models(list@), marks@).len() == 0 && message@
                == no_cities(option_view(country)),
        },
{
    let ghost models = city_models(list@);
    let mut found: Vec<CitySummary> = Vec::new();
    let mut i: usize = 0;
    assert(models.take(0) =~= Seq::empty());
    assert(city_models(found@) =~= Seq::empty());
    while i < list.len()
        invariant
            i <= list@.len(),
            list@.len() == marks@.len(),
            models == city_models(list@),
            city_models(found@) == marked_cities(models.take(i as int), marks@),
        decreases list@.len() - i,
    {
        assert(models.take(i + 1).drop_last() =~= models.take(i as int));
        assert(models.take(i + 1).last() == list@[i as int]@);
        if marks[i] {
            let ghost before = city_models(found@);
            let item = list[i].copy();
            found.push(item);
            assert(city_models(found@) =~= before.push(item@));
        }
        i = i + 1;
    }
    assert(models.take(i as int) =~= models);
    if found.len() == 0 {
        let message = match country {
            Some(country) => {
                let mut message = "no usable Nord candidates found for country ".to_string();
                message.append(quoted(country).as_str());
                message
            },
            None => "Nord inventory contained no usable cities".to_string(),
        };
        return Err(message);
    }
    Ok(found)
}

fn mark_country(list: &Vec<CitySummary>, country: Option<&str>) -> (r: Vec<bool>)
    ensures
        r@ == country_marks(city_models(list@), option_view(country)),
        has_ascii_countries(city_models(list@), option_view(country)) ==> r@
            == ascii_country_marks(city_models(list@), option_view(country)),
{
    let ghost models = city_models(list@);
    let ghost named = option_view(country);
    let mut marks: Vec<bool> = Vec::new();
    let mut i: usize = 0;
    while i < list.len()
        invariant
            i <= list@.len(),
            models == city_models(list@),
            named == option_view(country),
            marks@.len() == i,
            forall|k: int| 0 <= k < i ==> #[trigger] marks@[k] == country_marks(models, named)[k],
            has_ascii_countries(models, named) ==> forall|k: int|
                0 <= k < i ==> #[trigger] marks@[k] == ascii_country_marks(models, named)[k],
        decreases list@.len() - i,
    {
        assert(models[i as int] == list@[i as int]@);
        let mark: bool = match country {
            Some(country) => case_eq(list[i].country.as_str(), country),
            None => true,
        };
        marks.push(mark);
        i = i + 1;
    }
    assert(marks@ =~= country_marks(models, named));
    assert(has_ascii_countries(models, named) ==> marks@ =~= ascii_country_marks(models, named));
    marks
}

/// The cities of the servers, all or those of one country, whose name is matched in full and case
/// aside. None at all is an error.
pub fn filtered_cities(targets: &[NordTarget], country: Option<&str>) -> (r: Result<
    Vec<CitySummary>,
    String,
>)
    ensures
        exists|list: Seq<CityModel>| #[trigger]
            is_city_list(target_models(targets@), ""@, list) && (match r {
                Ok(found) => found@.len() > 0 && city_models(found@) == marked_cities(
                    list,
                    country_marks(list, option_view(country)),
                ),
                Err(message) => marked_cities(
                    list,
                    country_marks(list, option_view(country)),
                ).len() == 0 && message@ == no_cities(option_view(country)),
            }) && (has_ascii_countries(list, option_view(country)) ==> country_marks(
                list,
                option_view(country),
            ) == ascii_country_marks(list, option_view(country))),
{
    let all = cities(targets, "");
    let ghost list = city_models(all@);
    assert(is_city_list(target_models(targets@), ""@, list));
    let marks = mark_country(&all, country);
    list_marked(&all, &marks, country)
}

/// The line of a city in the list: country, name and number of servers, with tabs between them.
pub fn city_line(city: &CitySummary) -> (r: String)
    ensures
        r@ == city.country@ + "\t"@ + city.city@ + "\t"@ + decimal_spec(city.count as int),
{
    let mut r = city.country.clone();
    r.append("\t");
    r.append(city.city.as_str());
    r.append("\t");
    r.append(decimal(city.count as u64).as_str());
    r
}

} // verus!

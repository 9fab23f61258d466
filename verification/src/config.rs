use vstd::prelude::*;
use crate::technology::{Technology, TechnologyConfig};
use crate::link_set::names;
use crate::external_measurement::ExternalMeasurementConfig;

verus! {

/// Whether the program keeps its privileges or drops them to a user and
/// group.
#[derive(Debug, Clone, Copy, PartialEq, Eq, Structural)]
pub enum UserGroup {
    Privileged,
    Regular { uid: u32, gid: u32 },
}

/// Why a configuration is refused.
#[derive(Debug, Clone, Copy, PartialEq, Eq, Structural)]
pub enum ConfigError {
    /// The configuration has no links.
    NoLinks,
    /// A link refers to an external measurement that is not configured.
    TechnologyNotFound,
    /// A link and its external measurement are of different technologies.
    TechnologyMismatch,
}

/// What the configuration check reads of a link: its name, its technology
/// and the external measurement it refers to.
#[derive(Debug)]
pub struct LinkMeasurementRef {
    pub name: String,
    pub technology: Technology,
    pub external_measurement: Option<String>,
}

/// The measurement names of a list of (name, measurement) entries.
pub open spec fn measurement_names(t: Seq<(String, TechnologyConfig)>) -> Seq<Seq<char>> {
    t.map_values(|e: (String, TechnologyConfig)| e.0@)
}

/// The first error among the links' references, checked in order.
pub open spec fn first_reference_error(
    links: Seq<LinkMeasurementRef>,
    techs: Seq<(String, TechnologyConfig)>,
) -> Option<ConfigError>
    decreases links.len(),
{
    if links.len() == 0 {
        None
    } else {
        let l = links[0];
        match l.external_measurement {
            Some(m) => if !measurement_names(techs).contains(m@) {
                Some(ConfigError::TechnologyNotFound)
            } else if techs[crate::scheduler::time_to_trigger::position_of(
                measurement_names(techs),
                m@,
            )].1.technology != l.technology {
                Some(ConfigError::TechnologyMismatch)
            } else {
                first_reference_error(links.drop_first(), techs)
            },
            None => first_reference_error(links.drop_first(), techs),
        }
    }
}

/// The names of the links that refer to measurement `m`, in order.
pub open spec fn referring_links(links: Seq<LinkMeasurementRef>, m: Seq<char>) -> Seq<Seq<char>>
    decreases links.len(),
{
    if links.len() == 0 {
        Seq::empty()
    } else {
        let rest = referring_links(links.drop_last(), m);
        match links.last().external_measurement {
            Some(x) => if x@ == m {
                rest.push(links.last().name@)
            } else {
                rest
            },
            None => rest,
        }
    }
}

/// A configuration needs links.
pub fn check_links_given(number_of_links: usize) -> (r: Result<(), ConfigError>)
    ensures
        r == (if number_of_links == 0 {
            Err(ConfigError::NoLinks)
        } else {
            Ok(())
        }),
{
    if number_of_links == 0 {
        return Err(ConfigError::NoLinks);
    }
    Ok(())
}

fn find_measurement(techs: &Vec<(String, TechnologyConfig)>, name: &String) -> (r: Option<usize>)
    requires
        measurement_names(techs@).no_duplicates(),
    ensures
        match r {
            Some(i) => i < techs.len() && i == crate::scheduler::time_to_trigger::position_of(
                measurement_names(techs@),
                name@,
            ),
            None => !measurement_names(techs@).contains(name@),
        },
{
    let mut i: usize = 0;
    while i < techs.len()
        invariant
            i <= techs.len(),
            measurement_names(techs@).no_duplicates(),
            forall|j: int| 0 <= j < i ==> measurement_names(techs@)[j] != name@,
        decreases techs.len() - i,
    {
        assert(measurement_names(techs@)[i as int] == techs@[i as int].0@);
        if techs[i].0 == *name {
            proof {
                crate::scheduler::time_to_trigger::lemma_position_unique(measurement_names(techs@), i as int);
            }
            return Some(i);
        }
        i = i + 1;
    }
    None
}

/// Checks that every external measurement a link refers to is configured
/// and of the link's technology, in the order of the links, and records
/// each such link with its measurement.
pub fn assign_measurement_links(
    links: &Vec<LinkMeasurementRef>,
    technologies: &mut Vec<(String, TechnologyConfig)>,
) -> (r: Result<(), ConfigError>)
    requires
        measurement_names(old(technologies)@).no_duplicates(),
    ensures
        measurement_names(final(technologies)@) == measurement_names(old(technologies)@),
        r == match first_reference_error(links@, old(technologies)@) {
            Some(e) => Err(e),
            None => Ok(()),
        },
        r is Ok ==> forall|i: int|
            0 <= i < final(technologies).len() ==> {
                let o = #[trigger] old(technologies)@[i];
                let f = final(technologies)@[i];
                &&& f.1.technology == o.1.technology
                &&& names(f.1.links@) == names(o.1.links@) + referring_links(links@, o.0@)
            },
{
    let ghost t0 = technologies@;
    let mut k: usize = 0;
    proof {
        assert(links@.subrange(0, links.len() as int) =~= links@);
        assert(links@.subrange(0, 0) =~= Seq::<LinkMeasurementRef>::empty());
        assert forall|i: int| 0 <= i < t0.len() implies names(t0[i].1.links@) =~= names(
            t0[i].1.links@,
        ) + referring_links(links@.subrange(0, 0), t0[i].0@) by {}
    }
    while k < links.len()
        invariant
            k <= links.len(),
            measurement_names(technologies@) == measurement_names(t0),
            measurement_names(t0).no_duplicates(),
            t0 == old(technologies)@,
            technologies.len() == t0.len(),
            first_reference_error(links@, t0) == first_reference_error(
                links@.subrange(k as int, links.len() as int),
                t0,
            ),
            forall|i: int|
                0 <= i < technologies.len() ==> {
                    let o = #[trigger] t0[i];
                    let f = technologies@[i];
                    &&& f.1.technology == o.1.technology
                    &&& names(f.1.links@) == names(o.1.links@) + referring_links(
                        links@.subrange(0, k as int),
                        o.0@,
                    )
                },
        decreases links.len() - k,
    {
        let ghost rest = links@.subrange(k as int, links.len() as int);
        assert(rest[0] == links@[k as int]);
        assert(rest.drop_first() =~= links@.subrange(k + 1, links.len() as int));
        let ghost pre = links@.subrange(0, k + 1);
        assert(pre.drop_last() =~= links@.subrange(0, k as int));
        assert(pre.last() == links@[k as int]);
        let link = &links[k];
        match &link.external_measurement {
            Some(m) => {
                let idx = match find_measurement(technologies, m) {
                    Some(i) => i,
                    None => {
                        return Err(ConfigError::TechnologyNotFound);
                    },
                };
                if technologies[idx].1.technology != link.technology {
                    return Err(ConfigError::TechnologyMismatch);
                }
                let ghost before = technologies@;
                let name = link.name.clone();
                let mut entry = technologies.remove(idx);
                entry.1.links.push(name);
                technologies.insert(idx, entry);
                proof {
                    assert(technologies@ =~= before.update(idx as int, technologies@[idx as int]));
                    assert forall|i: int| 0 <= i < technologies.len() implies {
                        let o = #[trigger] t0[i];
                        let f = technologies@[i];
                        &&& f.1.technology == o.1.technology
                        &&& names(f.1.links@) == names(o.1.links@) + referring_links(pre, o.0@)
                    } by {
                        assert(measurement_names(t0)[i] == t0[i].0@);
                        if i == idx {
                            assert(names(technologies@[i].1.links@) =~= names(before[i].1.links@).push(
                                link.name@,
                            ));
                        } else {
                            assert(measurement_names(t0)[idx as int] == m@);
                            assert(t0[i].0@ != m@);
                        }
                    }
                    assert(measurement_names(technologies@) =~= measurement_names(t0)) by {
                        assert forall|i: int| 0 <= i < technologies.len() implies measurement_names(
                            technologies@,
                        )[i] == measurement_names(t0)[i] by {
                            if i == idx {
                                assert(technologies@[i].0 == before[i].0);
                            }
                            assert(measurement_names(before)[i] == measurement_names(t0)[i]);
                        }
                    }
                }
            },
            None => {},
        }
        k = k + 1;
    }
    proof {
        assert(links@.subrange(0, links.len() as int) =~= links@);
        assert(links@.subrange(k as int, links.len() as int) =~= Seq::<LinkMeasurementRef>::empty());
    }
    Ok(())
}

/// Checks a configuration: it must have links, and every external
/// measurement its links refer to must be configured and of the link's
/// technology. On success each measurement lists the links that refer to
/// it, in the order of the links.
pub fn check_config(
    links: &Vec<LinkMeasurementRef>,
    external_measurement: &mut Option<ExternalMeasurementConfig>,
) -> (r: Result<(), ConfigError>)
    requires
        old(external_measurement).is_some() ==> measurement_names(
            old(external_measurement).unwrap().technologies@,
        ).no_duplicates(),
    ensures
        r == (if links.len() == 0 {
            Err(ConfigError::NoLinks)
        } else {
            match *old(external_measurement) {
                Some(e) => match first_reference_error(links@, e.technologies@) {
                    Some(err) => Err(err),
                    None => Ok(()),
                },
                None => Ok(()),
            }
        }),
        r is Ok ==> match (*old(external_measurement), *final(external_measurement)) {
            (Some(o), Some(f)) => {
                &&& f.zmq_ip == o.zmq_ip
                &&& f.zmq_port == o.zmq_port
                &&& measurement_names(f.technologies@) == measurement_names(o.technologies@)
                &&& forall|i: int|
                    0 <= i < f.technologies.len() ==> {
                        let ot = #[trigger] o.technologies@[i];
                        let ft = f.technologies@[i];
                        &&& ft.1.technology == ot.1.technology
                        &&& names(ft.1.links@) == names(ot.1.links@) + referring_links(links@, ot.0@)
                    }
            },
            (None, None) => true,
            _ => false,
        },
{
    match check_links_given(links.len()) {
        Err(e) => {
            return Err(e);
        },
        Ok(()) => {},
    }
    match external_measurement {
        Some(e) => {
            let r = assign_measurement_links(links, &mut e.technologies);
            proof {
                assert(measurement_names(e.technologies@).len() == e.technologies@.len());
            }
            r
        },
        None => Ok(()),
    }
}

} // verus!

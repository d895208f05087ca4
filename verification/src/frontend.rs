//! The presentation boundary's message types.
//!
//! The simulation sends one aggregated snapshot per tick; fields merge
//! additively until consumed. The presentation sends back a chosen option
//! index or an administrative command. Avatar images are named here by their
//! asset keys; resolving a key to image data is the presentation's job.

use vstd::prelude::*;
use crate::player::Attribute;
use crate::player::def_idx;
use crate::player::def_of;
use crate::game::DataSource;
use crate::game::GameData;

verus! {

/// The view of an option list: each entry's text and enabled flag.
pub open spec fn opts_view(s: Seq<(String, bool)>) -> Seq<(Seq<char>, bool)> {
    Seq::new(s.len(), |i: int| (s[i].0@, s[i].1))
}

/// The view of a list of display lines.
pub open spec fn lines_view(s: Seq<String>) -> Seq<Seq<char>> {
    Seq::new(s.len(), |i: int| s[i]@)
}

/// The view of attribute display triples: name, current value, maximum.
pub open spec fn attr_triples_view(s: Seq<(String, i32, i32)>) -> Seq<(Seq<char>, i32, i32)> {
    Seq::new(s.len(), |i: int| (s[i].0@, s[i].1, s[i].2))
}

/// The display triples accumulated from the attributes from index `i` on:
/// the name, the current value and the definition's maximum of each visible
/// attribute, appended to `acc`. An attribute without a definition is
/// skipped; callers rule that case out.
pub open spec fn attr_display(
    attrs: Seq<(String, i32)>,
    defs: Seq<Attribute>,
    i: int,
    acc: Seq<(Seq<char>, i32, i32)>,
) -> Seq<(Seq<char>, i32, i32)>
    decreases attrs.len() - i,
{
    if i < 0 || i >= attrs.len() {
        acc
    } else {
        let acc2 = match def_of(defs, attrs[i].0@) {
            Some(a) => if a.invisible {
                acc
            } else {
                acc.push((attrs[i].0@, attrs[i].1, a.max))
            },
            None => acc,
        };
        attr_display(attrs, defs, i + 1, acc2)
    }
}

/// A marker accompanying diagnostic echo output.
pub struct DebugToFrontend;

/// The outbound snapshot: text, options, status lines, attribute display
/// triples, and avatar directives, all optional until set.
pub struct ToFrontend {
    pub main_area: Option<String>,
    pub option_area: Option<Vec<(String, bool)>>,
    pub option_display_disabled: Option<bool>,
    pub player_status: Option<Vec<String>>,
    pub player_attribute: Option<Vec<(String, i32, i32)>>,
    pub avatar_image: (Option<String>, Option<Vec<String>>),
    pub debug: Option<DebugToFrontend>,
}

impl ToFrontend {
    /// An empty snapshot.
    pub fn new() -> (r: ToFrontend)
        ensures
            r.main_area is None,
            r.option_area is None,
            r.option_display_disabled is None,
            r.player_status is None,
            r.player_attribute is None,
            r.avatar_image.0 is None,
            r.avatar_image.1 is None,
            r.debug is None,
    {
        ToFrontend {
            main_area: None,
            option_area: None,
            option_display_disabled: None,
            player_status: None,
            player_attribute: None,
            avatar_image: (None, None),
            debug: None,
        }
    }

    /// Overlays a later snapshot onto this one: every field the later
    /// snapshot sets replaces this one's.
    pub fn merge(&mut self, target: ToFrontend)
        ensures
            final(self).main_area == if target.main_area is Some {
                target.main_area
            } else {
                old(self).main_area
            },
            final(self).option_area == if target.option_area is Some {
                target.option_area
            } else {
                old(self).option_area
            },
            final(self).option_display_disabled == if target.option_display_disabled is Some {
                target.option_display_disabled
            } else {
                old(self).option_display_disabled
            },
            final(self).player_status == if target.player_status is Some {
                target.player_status
            } else {
                old(self).player_status
            },
            final(self).player_attribute == if target.player_attribute is Some {
                target.player_attribute
            } else {
                old(self).player_attribute
            },
            final(self).avatar_image.0 == if target.avatar_image.0 is Some {
                target.avatar_image.0
            } else {
                old(self).avatar_image.0
            },
            final(self).avatar_image.1 == if target.avatar_image.1 is Some {
                target.avatar_image.1
            } else {
                old(self).avatar_image.1
            },
            final(self).debug == if target.debug is Some {
                target.debug
            } else {
                old(self).debug
            },
    {
        let ToFrontend {
            main_area,
            option_area,
            option_display_disabled,
            player_status,
            player_attribute,
            avatar_image,
            debug,
        } = target;
        if main_area.is_some() {
            self.main_area = main_area;
        }
        if option_area.is_some() {
            self.option_area = option_area;
        }
        if option_display_disabled.is_some() {
            self.option_display_disabled = option_display_disabled;
        }
        if player_status.is_some() {
            self.player_status = player_status;
        }
        if player_attribute.is_some() {
            self.player_attribute = player_attribute;
        }
        if avatar_image.0.is_some() {
            self.avatar_image.0 = avatar_image.0;
        }
        if avatar_image.1.is_some() {
            self.avatar_image.1 = avatar_image.1;
        }
        if debug.is_some() {
            self.debug = debug;
        }
    }

    /// Appends text to the main text buffer.
    pub fn display_text(&mut self, text: &str)
        ensures
            final(self).main_area matches Some(s) && s@ == (match old(self).main_area {
                Some(m) => m@ + text@,
                None => text@,
            }),
            final(self).option_area == old(self).option_area,
            final(self).option_display_disabled == old(self).option_display_disabled,
            final(self).player_status == old(self).player_status,
            final(self).player_attribute == old(self).player_attribute,
            final(self).avatar_image == old(self).avatar_image,
            final(self).debug == old(self).debug,
    {
        match &mut self.main_area {
            Some(s) => {
                s.append(text);
            },
            None => {
                self.main_area = Some(text.to_owned());
            },
        }
    }

    /// Appends options to the option list and records whether disabled
    /// options should stay hidden.
    pub fn display_options(&mut self, options: &[(String, bool)], display_disabled: bool)
        ensures
            final(self).option_area matches Some(v) && opts_view(v@) == (match old(
                self,
            ).option_area {
                Some(o) => opts_view(o@) + opts_view(options@),
                None => opts_view(options@),
            }),
            final(self).option_display_disabled == Some(display_disabled),
            final(self).main_area == old(self).main_area,
            final(self).player_status == old(self).player_status,
            final(self).player_attribute == old(self).player_attribute,
            final(self).avatar_image == old(self).avatar_image,
            final(self).debug == old(self).debug,
    {
        if self.option_area.is_none() {
            self.option_area = Some(Vec::new());
            proof {
                assert(opts_view(Seq::<(String, bool)>::empty()) =~= Seq::<(
                    Seq<char>,
                    bool,
                )>::empty());
            }
        }
        match &mut self.option_area {
            Some(area) => {
                let ghost base = opts_view(area@);
                let ghost goal = match old(self).option_area {
                    Some(o) => opts_view(o@) + opts_view(options@),
                    None => opts_view(options@),
                };
                let n = options.len();
                for i in 0..n
                    invariant
                        n == options@.len(),
                        area@.len() == base.len() + i,
                        opts_view(area@) == base + opts_view(options@.subrange(0, i as int)),
                {
                    let ghost pre = opts_view(area@);
                    area.push((options[i].0.clone(), options[i].1));
                    proof {
                        assert(opts_view(area@) =~= pre.push(
                            (options@[i as int].0@, options@[i as int].1),
                        ));
                        assert(opts_view(options@.subrange(0, i + 1)) =~= opts_view(
                            options@.subrange(0, i as int),
                        ).push((options@[i as int].0@, options@[i as int].1)));
                        assert(opts_view(area@) =~= base + opts_view(
                            options@.subrange(0, i + 1),
                        ));
                    }
                }
                proof {
                    assert(options@.subrange(0, options@.len() as int) =~= options@);
                    assert(opts_view(area@) =~= goal);
                }
            },
            None => {
                proof {
                    assert(false);
                }
            },
        }
        self.option_display_disabled = Some(display_disabled);
    }

    /// Appends status description lines.
    pub fn display_player_status(&mut self, descriptions: &[String])
        ensures
            final(self).player_status matches Some(v) && lines_view(v@) == (match old(
                self,
            ).player_status {
                Some(o) => lines_view(o@) + lines_view(descriptions@),
                None => lines_view(descriptions@),
            }),
            final(self).main_area == old(self).main_area,
            final(self).option_area == old(self).option_area,
            final(self).option_display_disabled == old(self).option_display_disabled,
            final(self).player_attribute == old(self).player_attribute,
            final(self).avatar_image == old(self).avatar_image,
            final(self).debug == old(self).debug,
    {
        if self.player_status.is_none() {
            self.player_status = Some(Vec::new());
            proof {
                assert(lines_view(Seq::<String>::empty()) =~= Seq::<Seq<char>>::empty());
            }
        }
        match &mut self.player_status {
            Some(area) => {
                let ghost base = lines_view(area@);
                let ghost goal = match old(self).player_status {
                    Some(o) => lines_view(o@) + lines_view(descriptions@),
                    None => lines_view(descriptions@),
                };
                let n = descriptions.len();
                for i in 0..n
                    invariant
                        n == descriptions@.len(),
                        area@.len() == base.len() + i,
                        lines_view(area@) == base + lines_view(descriptions@.subrange(0, i as int)),
                {
                    let ghost pre = lines_view(area@);
                    area.push(descriptions[i].clone());
                    proof {
                        assert(lines_view(area@) =~= pre.push(descriptions@[i as int]@));
                        assert(lines_view(descriptions@.subrange(0, i + 1)) =~= lines_view(
                            descriptions@.subrange(0, i as int),
                        ).push(descriptions@[i as int]@));
                        assert(lines_view(area@) =~= base + lines_view(
                            descriptions@.subrange(0, i + 1),
                        ));
                    }
                }
                proof {
                    assert(descriptions@.subrange(0, descriptions@.len() as int) =~= descriptions@);
                    assert(lines_view(area@) =~= goal);
                }
            },
            None => {
                proof {
                    assert(false);
                }
            },
        }
    }

    /// Appends the display triples of the visible attributes: name, current
    /// value, and the definition's maximum. Every listed attribute must have
    /// a definition.
    pub fn display_player_attributes(
        &mut self,
        attributes: &Vec<(String, i32)>,
        attr_def: &Vec<Attribute>,
    )
        requires
            forall|i: int| 0 <= i < attributes@.len() ==> #[trigger] def_of(
                attr_def@,
                attributes@[i].0@,
            ) is Some,
        ensures
            final(self).player_attribute matches Some(v) && attr_triples_view(v@) == attr_display(
                attributes@,
                attr_def@,
                0,
                match old(self).player_attribute {
                    Some(o) => attr_triples_view(o@),
                    None => Seq::empty(),
                },
            ),
            final(self).main_area == old(self).main_area,
            final(self).option_area == old(self).option_area,
            final(self).option_display_disabled == old(self).option_display_disabled,
            final(self).player_status == old(self).player_status,
            final(self).avatar_image == old(self).avatar_image,
            final(self).debug == old(self).debug,
    {
        if self.player_attribute.is_none() {
            self.player_attribute = Some(Vec::new());
            proof {
                assert(attr_triples_view(Seq::<(String, i32, i32)>::empty()) =~= Seq::<(
                    Seq<char>,
                    i32,
                    i32,
                )>::empty());
            }
        }
        match &mut self.player_attribute {
            Some(area) => {
                let n = attributes.len();
                for i in 0..n
                    invariant
                        n == attributes@.len(),
                        forall|k: int| 0 <= k < attributes@.len() ==> #[trigger] def_of(
                            attr_def@,
                            attributes@[k].0@,
                        ) is Some,
                        attr_display(
                            attributes@,
                            attr_def@,
                            0,
                            match old(self).player_attribute {
                                Some(o) => attr_triples_view(o@),
                                None => Seq::empty(),
                            },
                        ) == attr_display(attributes@, attr_def@, i as int, attr_triples_view(
                            area@,
                        )),
                {
                    let name = &attributes[i].0;
                    let val = attributes[i].1;
                    match crate::player::lookup_def(attr_def, name.as_str()) {
                        Some(d) => {
                            if !attr_def[d].invisible {
                                let ghost pre = attr_triples_view(area@);
                                area.push((name.clone(), val, attr_def[d].max));
                                proof {
                                    assert(attr_triples_view(area@) =~= pre.push(
                                        (
                                            attributes@[i as int].0@,
                                            attributes@[i as int].1,
                                            attr_def@[d as int].max,
                                        ),
                                    ));
                                }
                            }
                        },
                        None => {
                            proof {
                                assert(false);
                            }
                        },
                    }
                }
            },
            None => {
                proof {
                    assert(false);
                }
            },
        }
    }

    /// Replaces the main avatar image and clears the decorations.
    pub fn change_avatar(&mut self, avatar: String)
        ensures
            final(self).avatar_image.0 == Some(avatar),
            final(self).avatar_image.1 matches Some(v) && v@.len() == 0,
            final(self).main_area == old(self).main_area,
            final(self).option_area == old(self).option_area,
            final(self).option_display_disabled == old(self).option_display_disabled,
            final(self).player_status == old(self).player_status,
            final(self).player_attribute == old(self).player_attribute,
            final(self).debug == old(self).debug,
    {
        self.avatar_image = (Some(avatar), Some(Vec::new()));
    }

    /// Replaces the main avatar image, keeping the decorations.
    pub fn change_avatar_keeping_deco(&mut self, avatar: String)
        ensures
            final(self).avatar_image.0 == Some(avatar),
            final(self).avatar_image.1 == old(self).avatar_image.1,
            final(self).main_area == old(self).main_area,
            final(self).option_area == old(self).option_area,
            final(self).option_display_disabled == old(self).option_display_disabled,
            final(self).player_status == old(self).player_status,
            final(self).player_attribute == old(self).player_attribute,
            final(self).debug == old(self).debug,
    {
        self.avatar_image.0 = Some(avatar);
    }

    /// Adds an avatar decoration.
    pub fn add_avatar_deco(&mut self, deco: String)
        ensures
            final(self).avatar_image.1 matches Some(v) && v@ == (match old(self).avatar_image.1 {
                Some(o) => o@.push(deco),
                None => seq![deco],
            }),
            final(self).avatar_image.0 == old(self).avatar_image.0,
            final(self).main_area == old(self).main_area,
            final(self).option_area == old(self).option_area,
            final(self).option_display_disabled == old(self).option_display_disabled,
            final(self).player_status == old(self).player_status,
            final(self).player_attribute == old(self).player_attribute,
            final(self).debug == old(self).debug,
    {
        match &mut self.avatar_image.1 {
            Some(v) => {
                v.push(deco);
            },
            None => {
                let mut v: Vec<String> = Vec::new();
                v.push(deco);
                proof {
                    assert(v@ =~= seq![deco]);
                }
                self.avatar_image.1 = Some(v);
            },
        }
    }

    /// Hands the accumulated snapshot out and leaves an empty one behind.
    pub fn clone_and_clear(&mut self) -> (r: ToFrontend)
        ensures
            r == *old(self),
            final(self).main_area is None,
            final(self).option_area is None,
            final(self).option_display_disabled is None,
            final(self).player_status is None,
            final(self).player_attribute is None,
            final(self).avatar_image.0 is None,
            final(self).avatar_image.1 is None,
            final(self).debug is None,
    {
        let mut out = ToFrontend::new();
        core::mem::swap(&mut out, self);
        out
    }
}

/// An inbound message: a chosen option index, an administrative command, or
/// nothing.
pub enum FromFrontend {
    Choice(usize),
    Debug(DebugFromFrontend),
    Empty,
}

/// An administrative command from the presentation boundary.
pub struct DebugFromFrontend {
    pub sign: DebugSign,
}

/// What an administrative command asks for: reloading the catalog from a
/// source, or force-setting a named attribute.
pub enum DebugSign {
    ReloadData(DataSource<GameData>),
    SetAttribute(String, i32),
    Nothing,
}

impl FromFrontend {
    /// The chosen option index, or the administrative command that arrived
    /// instead; an empty message counts as an empty command.
    pub fn into_choice(self) -> (r: Result<usize, DebugFromFrontend>)
        ensures
            self matches FromFrontend::Choice(u) ==> r == Result::<
                usize,
                DebugFromFrontend,
            >::Ok(u),
            self matches FromFrontend::Debug(d) ==> r == Result::<usize, DebugFromFrontend>::Err(
                d,
            ),
            self is Empty ==> (r matches Result::Err(d) && d.sign is Nothing),
    {
        match self {
            FromFrontend::Choice(u) => Ok(u),
            FromFrontend::Debug(dbg) => Err(dbg),
            FromFrontend::Empty => Err(DebugFromFrontend { sign: DebugSign::Nothing }),
        }
    }
}

} // verus!

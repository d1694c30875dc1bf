//! Camera and card registration, shared by the whole project.
use vstd::prelude::*;
use crate::text::{chars_of, string_of, to_upper, unicode_upper, trim, trim_str, decimal, decimal_string, is_ascii_alpha, ascii_alpha};
use crate::naming::{camera_code, camera_code_of};
use crate::paths::{join, path_join};

verus! {

broadcast use vstd::string::group_string_axioms;

/// A registered camera.
#[derive(Debug, Clone, PartialEq)]
pub struct Camera {
    pub id: String,
    pub model: String,
    /// Camera position, one letter `A`–`Z`.
    pub position: String,
    /// Operator's short name, e.g. `ZS`.
    pub operator: String,
    /// Generated code, e.g. `DJIRONIN4D_B_ZS`.
    pub code: String,
    pub note: Option<String>,
}

/// A registered memory card, tied to one camera.
#[derive(Debug, Clone, PartialEq)]
pub struct Card {
    pub id: String,
    /// Printed label, e.g. `CARD-001`.
    pub label: String,
    pub camera_id: String,
    pub note: Option<String>,
}

/// The project-wide registry of cameras and cards.
#[derive(Debug, Clone, Default, PartialEq)]
pub struct DeviceRegistry {
    pub cameras: Vec<Camera>,
    pub cards: Vec<Card>,
}

fn dup_note(n: &Option<String>) -> (r: Option<String>)
    ensures
        r == *n,
{
    match n {
        Some(s) => Some(s.clone()),
        None => None,
    }
}

fn dup_camera(c: &Camera) -> (r: Camera)
    ensures
        r == *c,
{
    Camera {
        id: c.id.clone(),
        model: c.model.clone(),
        position: c.position.clone(),
        operator: c.operator.clone(),
        code: c.code.clone(),
        note: dup_note(&c.note),
    }
}

fn dup_card(c: &Card) -> (r: Card)
    ensures
        r == *c,
{
    Card {
        id: c.id.clone(),
        label: c.label.clone(),
        camera_id: c.camera_id.clone(),
        note: dup_note(&c.note),
    }
}

/// `{prefix}{n}` for a counter.
fn counter_id(prefix: &str, n: u64) -> (r: String)
    ensures
        r@ == prefix@ + decimal(n as nat),
{
    let mut r = prefix.to_owned();
    let d = decimal_string(n);
    r.append(d.as_str());
    r
}

/// The position text as it is stored: trimmed, then upper-cased.
pub open spec fn normalized_position(position: Seq<char>) -> Seq<char> {
    unicode_upper(trim(position))
}

/// One ASCII letter.
pub open spec fn is_position(p: Seq<char>) -> bool {
    p.len() == 1 && is_ascii_alpha(p[0])
}

impl DeviceRegistry {
    /// No two cameras share a code.
    pub open spec fn codes_unique(&self) -> bool {
        forall|i: int, j: int|
            0 <= i < j < self.cameras@.len() ==> self.cameras@[i].code@ != self.cameras@[j].code@
    }

    /// No two cards share a label.
    pub open spec fn labels_unique(&self) -> bool {
        forall|i: int, j: int|
            0 <= i < j < self.cards@.len() ==> self.cards@[i].label@ != self.cards@[j].label@
    }

    /// Some camera has this id.
    pub open spec fn has_camera_id(&self, id: Seq<char>) -> bool {
        exists|i: int| 0 <= i < self.cameras@.len() && #[trigger] self.cameras@[i].id@ == id
    }

    /// Some camera has this code.
    pub open spec fn has_code(&self, code: Seq<char>) -> bool {
        exists|i: int| 0 <= i < self.cameras@.len() && #[trigger] self.cameras@[i].code@ == code
    }

    /// Some card has this label.
    pub open spec fn has_label(&self, label: Seq<char>) -> bool {
        exists|i: int| 0 <= i < self.cards@.len() && #[trigger] self.cards@[i].label@ == label
    }

    /// Every card names a registered camera.
    pub open spec fn cards_linked(&self) -> bool {
        forall|i: int| 0 <= i < self.cards@.len() ==> self.has_camera_id(#[trigger] self.cards@[i].camera_id@)
    }

    /// The registry invariant that registration keeps: unique camera codes, unique
    /// card labels, and every card tied to a registered camera.
    pub open spec fn wf(&self) -> bool {
        self.codes_unique() && self.labels_unique() && self.cards_linked()
    }

    /// An empty registry keeps the registry invariant, so every registry built by
    /// registering cameras and cards from empty keeps it too.
    pub proof fn lemma_empty_registry_wf(r: DeviceRegistry)
        requires
            r.cameras@.len() == 0,
            r.cards@.len() == 0,
        ensures
            r.wf(),
    {
    }

    fn find_code(&self, code: &str) -> (r: Option<usize>)
        ensures
            match r {
                Some(i) => i < self.cameras@.len() && self.cameras@[i as int].code@ == code@
                    && forall|j: int| 0 <= j < i ==> self.cameras@[j].code@ != code@,
                None => !self.has_code(code@),
            },
    {
        let mut i: usize = 0;
        while i < self.cameras.len()
            invariant
                i <= self.cameras@.len(),
                forall|j: int| 0 <= j < i ==> self.cameras@[j].code@ != code@,
            decreases self.cameras@.len() - i,
        {
            if crate::text::str_eq(self.cameras[i].code.as_str(), code) {
                return Some(i);
            }
            i = i + 1;
        }
        None
    }

    fn find_label(&self, label: &str) -> (r: Option<usize>)
        ensures
            match r {
                Some(i) => i < self.cards@.len() && self.cards@[i as int].label@ == label@
                    && forall|j: int| 0 <= j < i ==> self.cards@[j].label@ != label@,
                None => !self.has_label(label@),
            },
    {
        let mut i: usize = 0;
        while i < self.cards.len()
            invariant
                i <= self.cards@.len(),
                forall|j: int| 0 <= j < i ==> self.cards@[j].label@ != label@,
            decreases self.cards@.len() - i,
        {
            if crate::text::str_eq(self.cards[i].label.as_str(), label) {
                return Some(i);
            }
            i = i + 1;
        }
        None
    }

    fn camera_id_known(&self, id: &str) -> (r: bool)
        ensures
            r == self.has_camera_id(id@),
    {
        let mut i: usize = 0;
        while i < self.cameras.len()
            invariant
                i <= self.cameras@.len(),
                forall|j: int| 0 <= j < i ==> self.cameras@[j].id@ != id@,
            decreases self.cameras@.len() - i,
        {
            if crate::text::str_eq(self.cameras[i].id.as_str(), id) {
                return true;
            }
            i = i + 1;
        }
        false
    }

    /// The registry file: `{ocard_dir}/devices.json`.
    pub fn path(ocard_dir: &str) -> (r: String)
        ensures
            r@ == path_join(ocard_dir@, "devices.json"@),
    {
        join(ocard_dir, "devices.json")
    }

    /// Registers a camera and generates its code. The position must be a single
    /// letter A–Z; model and operator must not be blank; the code must be new.
    pub fn add_camera(&mut self, model: &str, position: &str, operator: &str, note: Option<String>) -> (r: Result<Camera, String>)
        requires
            old(self).cameras@.len() < u64::MAX,
        ensures
            match r {
                Ok(c) => {
                    &&& is_position(normalized_position(position@))
                    &&& trim(model@).len() > 0
                    &&& trim(operator@).len() > 0
                    &&& c.code@ == camera_code_of(trim(model@), normalized_position(position@), trim(operator@))
                    &&& !old(self).has_code(c.code@)
                    &&& c.id@ == "cam-"@ + decimal((old(self).cameras@.len() + 1) as nat)
                    &&& c.model@ == trim(model@)
                    &&& c.position@ == normalized_position(position@)
                    &&& c.operator@ == trim(operator@)
                    &&& c.note == note
                    &&& final(self).cameras@ == old(self).cameras@.push(c)
                    &&& final(self).cards@ == old(self).cards@
                },
                Err(e) => {
                    &&& *final(self) == *old(self)
                    &&& if !is_position(normalized_position(position@)) {
                        e@ == "机位必须是单个字母 A–Z"@
                    } else if trim(model@).len() == 0 {
                        e@ == "型号不能为空"@
                    } else if trim(operator@).len() == 0 {
                        e@ == "使用者代称不能为空"@
                    } else {
                        let code = camera_code_of(trim(model@), normalized_position(position@), trim(operator@));
                        &&& old(self).has_code(code)
                        &&& e@ == "相机编码已存在："@ + code
                    }
                },
            },
            old(self).wf() ==> final(self).wf(),
    {
        let pos_chars = trim_str(position);
        let pos = to_upper(string_of(pos_chars.as_slice()).as_str());
        let pv = chars_of(pos.as_str());
        if !(pv.len() == 1 && ascii_alpha(pv[0])) {
            return Err("机位必须是单个字母 A–Z".to_owned());
        }
        let model_clean = string_of(trim_str(model).as_slice());
        if model_clean.as_str().is_empty() {
            return Err("型号不能为空".to_owned());
        }
        let op_clean = string_of(trim_str(operator).as_slice());
        if op_clean.as_str().is_empty() {
            return Err("使用者代称不能为空".to_owned());
        }
        let code = camera_code(model_clean.as_str(), pos.as_str(), op_clean.as_str());
        if self.find_code(code.as_str()).is_some() {
            let mut e = "相机编码已存在：".to_owned();
            e.append(code.as_str());
            return Err(e);
        }
        let camera = Camera {
            id: counter_id("cam-", self.cameras.len() as u64 + 1),
            model: model_clean,
            position: pos,
            operator: op_clean,
            code,
            note,
        };
        let ghost old_self = *self;
        self.cameras.push(dup_camera(&camera));
        proof {
            assert(self.cameras@ == old_self.cameras@.push(camera));
            if old_self.wf() {
                assert forall|id: Seq<char>| old_self.has_camera_id(id) implies self.has_camera_id(id) by {
                    let i = choose|i: int| 0 <= i < old_self.cameras@.len() && #[trigger] old_self.cameras@[i].id@ == id;
                    assert(self.cameras@[i].id@ == id);
                }
                assert(self.cards_linked());
            }
        }
        Ok(camera)
    }

    /// Registers a card for an existing camera. The label must not be blank and
    /// must be new.
    pub fn add_card(&mut self, label: &str, camera_id: &str, note: Option<String>) -> (r: Result<Card, String>)
        requires
            old(self).cards@.len() < u64::MAX,
        ensures
            match r {
                Ok(c) => {
                    &&& trim(label@).len() > 0
                    &&& old(self).has_camera_id(camera_id@)
                    &&& !old(self).has_label(trim(label@))
                    &&& c.id@ == "card-"@ + decimal((old(self).cards@.len() + 1) as nat)
                    &&& c.label@ == trim(label@)
                    &&& c.camera_id@ == camera_id@
                    &&& c.note == note
                    &&& final(self).cards@ == old(self).cards@.push(c)
                    &&& final(self).cameras@ == old(self).cameras@
                },
                Err(e) => {
                    &&& *final(self) == *old(self)
                    &&& if trim(label@).len() == 0 {
                        e@ == "标签不能为空"@
                    } else if !old(self).has_camera_id(camera_id@) {
                        e@ == "关联相机不存在"@
                    } else {
                        &&& old(self).has_label(trim(label@))
                        &&& e@ == "存储卡标签已存在："@ + trim(label@)
                    }
                },
            },
            old(self).wf() ==> final(self).wf(),
    {
        let label_clean = string_of(trim_str(label).as_slice());
        if label_clean.as_str().is_empty() {
            return Err("标签不能为空".to_owned());
        }
        if !self.camera_id_known(camera_id) {
            return Err("关联相机不存在".to_owned());
        }
        if self.find_label(label_clean.as_str()).is_some() {
            let mut e = "存储卡标签已存在：".to_owned();
            e.append(label_clean.as_str());
            return Err(e);
        }
        let card = Card {
            id: counter_id("card-", self.cards.len() as u64 + 1),
            label: label_clean,
            camera_id: camera_id.to_owned(),
            note,
        };
        let ghost old_self = *self;
        self.cards.push(dup_card(&card));
        proof {
            assert(self.cards@ == old_self.cards@.push(card));
        }
        Ok(card)
    }

    /// The first camera with the given code.
    pub fn camera_by_code(&self, code: &str) -> (r: Option<&Camera>)
        ensures
            match r {
                Some(c) => exists|i: int| 0 <= i < self.cameras@.len() && *c == self.cameras@[i]
                    && c.code@ == code@ && forall|j: int| 0 <= j < i ==> self.cameras@[j].code@ != code@,
                None => !self.has_code(code@),
            },
    {
        match self.find_code(code) {
            Some(i) => Some(&self.cameras[i]),
            None => None,
        }
    }

    /// The first card with the given label.
    pub fn card_by_label(&self, label: &str) -> (r: Option<&Card>)
        ensures
            match r {
                Some(c) => exists|i: int| 0 <= i < self.cards@.len() && *c == self.cards@[i]
                    && c.label@ == label@ && forall|j: int| 0 <= j < i ==> self.cards@[j].label@ != label@,
                None => !self.has_label(label@),
            },
    {
        match self.find_label(label) {
            Some(i) => Some(&self.cards[i]),
            None => None,
        }
    }
}

} // verus!

//! Output modules: the configuration of one module, the traits that output
//! modules and their builders implement, a registry of builders keyed by
//! lower-cased module type, and a manager of running modules.

use vstd::prelude::*;
use vstd::string::{StrSliceExecFns, StringExecFns};
use crate::metadata::DecoderMetaData;
use crate::avr_output::AvrOutputBuilder;
use crate::sbs1_output::Sbs1OutputBuilder;
use crate::websocket_output::WebSocketOutputBuilder;

verus! {

/// `anyhow::Error`, the error that output modules report.
#[verifier::external_type_specification]
#[verifier::external_body]
pub struct ExAnyhowError(anyhow::Error);

/// What `str::to_lowercase` returns for a text: its Unicode lower case.
pub uninterp spec fn lowercase(s: Seq<char>) -> Seq<char>;

/// Calls `str::to_lowercase`. The result is named by `lowercase`, a
/// function of the text alone. Of a text made only of ASCII characters the
/// Unicode lower case maps `A`..`Z` to `a`..`z` and keeps every other
/// character; of other texts nothing more is stated.
#[verifier::external_body]
fn to_lowercase(s: &str) -> (r: String)
    ensures
        r@ == lowercase(s@),
        is_ascii_text(s@) ==> r@ == ascii_lowercase(s@),
{
    s.to_lowercase()
}

/// ASCII lower case of one character; other characters stay as they are.
pub open spec fn ascii_lower(c: char) -> char {
    if 'A' <= c && c <= 'Z' {
        ((c as u32) + 32) as char
    } else {
        c
    }
}

/// Every character of the text is an ASCII character.
pub open spec fn is_ascii_text(s: Seq<char>) -> bool {
    forall|i: int| 0 <= i < s.len() ==> (#[trigger] s[i] as u32) < 128
}

/// The text with each ASCII capital letter replaced by its small letter.
pub open spec fn ascii_lowercase(s: Seq<char>) -> Seq<char> {
    s.map_values(|c: char| ascii_lower(c))
}

/// Lower-casing the ASCII letters of an ASCII text gives an ASCII text, and
/// doing it a second time changes nothing: a key made from an ASCII module
/// type is its own lower case.
pub proof fn law_ascii_lowercase_idempotent(s: Seq<char>)
    requires
        is_ascii_text(s),
    ensures
        is_ascii_text(ascii_lowercase(s)),
        ascii_lowercase(ascii_lowercase(s)) == ascii_lowercase(s),
{
    let t = ascii_lowercase(s);
    assert forall|i: int| 0 <= i < t.len() implies (#[trigger] t[i] as u32) < 128 by {
        assert(t[i] == ascii_lower(s[i]));
        assert((s[i] as u32) < 128);
    }
    assert(ascii_lowercase(t) =~= t);
}

/// Equality of two texts when ASCII letters are compared without regard to
/// case (`str::eq_ignore_ascii_case`).
pub open spec fn eq_ignore_ascii_case(a: Seq<char>, b: Seq<char>) -> bool {
    &&& a.len() == b.len()
    &&& forall|i: int| 0 <= i < a.len() ==> ascii_lower(#[trigger] a[i]) == ascii_lower(b[i])
}

fn ascii_lower_char(c: char) -> (r: char)
    ensures
        r == ascii_lower(c),
{
    if 'A' <= c && c <= 'Z' {
        ((c as u8) + 32) as char
    } else {
        c
    }
}

/// Whether `a` and `b` are equal up to the case of ASCII letters.
pub fn texts_eq_ignore_ascii_case(a: &str, b: &str) -> (r: bool)
    ensures
        r == eq_ignore_ascii_case(a@, b@),
{
    let n = a.unicode_len();
    if n != b.unicode_len() {
        return false;
    }
    let mut i: usize = 0;
    while i < n
        invariant
            n == a@.len() == b@.len(),
            i <= n,
            forall|j: int| 0 <= j < i ==> ascii_lower(#[trigger] a@[j]) == ascii_lower(b@[j]),
        decreases n - i,
    {
        if ascii_lower_char(a.get_char(i)) != ascii_lower_char(b.get_char(i)) {
            return false;
        }
        i = i + 1;
    }
    true
}

/// The value that the last entry for `key` in an association list holds.
pub open spec fn lookup(entries: Seq<(String, String)>, key: Seq<char>) -> Option<Seq<char>>
    decreases entries.len(),
{
    if entries.len() == 0 {
        None
    } else if entries.last().0@ == key {
        Some(entries.last().1@)
    } else {
        lookup(entries.drop_last(), key)
    }
}

/// Configuration for an output module.
#[derive(Debug, Clone)]
pub struct OutputModuleConfig {
    /// The name/identifier of the module
    pub name: String,
    /// The port to bind the server to
    pub port: u16,
    /// The buffer capacity for the broadcast channel
    pub buffer_capacity: usize,
    /// Whether this module is enabled
    pub enabled: bool,
    /// Additional module-specific configuration, as key/value pairs; for a
    /// key that occurs more than once the last entry counts.
    pub extra: Vec<(String, String)>,
}

impl OutputModuleConfig {
    /// A configuration for module `name` on `port`, with a buffer of 1024
    /// messages, enabled, and no extra settings.
    pub fn new(name: &str, port: u16) -> (c: Self)
        ensures
            c.name@ == name@,
            c.port == port,
            c.buffer_capacity == 1024,
            c.enabled,
            c.extra@.len() == 0,
    {
        OutputModuleConfig {
            name: String::from_str(name),
            port,
            buffer_capacity: 1024,
            enabled: true,
            extra: Vec::new(),
        }
    }

    /// The same configuration with the buffer capacity set to `capacity`.
    pub fn with_buffer_capacity(self, capacity: usize) -> (c: Self)
        ensures
            c.buffer_capacity == capacity,
            c.name == self.name,
            c.port == self.port,
            c.enabled == self.enabled,
            c.extra == self.extra,
    {
        let mut c = self;
        c.buffer_capacity = capacity;
        c
    }

    /// The same configuration with the extra setting `key` set to `value`;
    /// every other extra setting keeps its value.
    pub fn with_extra(self, key: &str, value: &str) -> (c: Self)
        ensures
            lookup(c.extra@, key@) == Some(value@),
            forall|k: Seq<char>| k != key@ ==> #[trigger] lookup(c.extra@, k) == lookup(self.extra@, k),
            c.name == self.name,
            c.port == self.port,
            c.buffer_capacity == self.buffer_capacity,
            c.enabled == self.enabled,
    {
        let mut c = self;
        let mut kept: Vec<(String, String)> = Vec::new();
        let ghost old_extra = c.extra@;
        let mut i: usize = 0;
        while i < c.extra.len()
            invariant
                i <= c.extra@.len(),
                c.extra@ == old_extra,
                forall|k: Seq<char>| k != key@ ==> #[trigger] lookup(kept@, k) == lookup(old_extra.take(i as int), k),
                lookup(kept@, key@) is None,
            decreases c.extra.len() - i,
        {
            let entry_key = c.extra[i].0.as_str();
            proof {
                assert(old_extra.take(i + 1).drop_last() =~= old_extra.take(i as int));
                assert(old_extra.take(i + 1).last() == old_extra[i as int]);
            }
            if !str_eq(entry_key, key) {
                let entry = (
                    String::from_str(c.extra[i].0.as_str()),
                    String::from_str(c.extra[i].1.as_str()),
                );
                let ghost before = kept@;
                kept.push(entry);
                proof {
                    assert(kept@.drop_last() =~= before);
                    assert forall|k: Seq<char>| k != key@ implies #[trigger] lookup(kept@, k) == lookup(
                        old_extra.take(i + 1),
                        k,
                    ) by {
                        if old_extra[i as int].0@ != k {
                            assert(lookup(kept@, k) == lookup(before, k));
                        }
                    }
                }
            } else {
                proof {
                    assert forall|k: Seq<char>| k != key@ implies #[trigger] lookup(kept@, k) == lookup(
                        old_extra.take(i + 1),
                        k,
                    ) by {
                        assert(lookup(old_extra.take(i + 1), k) == lookup(old_extra.take(i as int), k));
                    }
                }
            }
            i = i + 1;
        }
        proof {
            assert(old_extra.take(old_extra.len() as int) =~= old_extra);
        }
        let ghost before = kept@;
        kept.push((String::from_str(key), String::from_str(value)));
        proof {
            assert(kept@.drop_last() =~= before);
            assert forall|k: Seq<char>| k != key@ implies #[trigger] lookup(kept@, k) == lookup(
                old_extra,
                k,
            ) by {
                assert(lookup(kept@, k) == lookup(before, k));
            }
        }
        c.extra = kept;
        c
    }
}

/// Whether two texts are equal.
fn str_eq(a: &str, b: &str) -> (r: bool)
    ensures
        r == (a@ == b@),
{
    let n = a.unicode_len();
    if n != b.unicode_len() {
        return false;
    }
    let mut i: usize = 0;
    while i < n
        invariant
            n == a@.len() == b@.len(),
            i <= n,
            forall|j: int| 0 <= j < i ==> a@[j] == b@[j],
        decreases n - i,
    {
        if a.get_char(i) != b.get_char(i) {
            return false;
        }
        i = i + 1;
    }
    assert(a@ =~= b@);
    true
}

/// An output module that receives ADS-B packets and serves them to clients.
///
/// Its methods report on live connections and servers outside this crate,
/// so nothing is promised of what they return.
pub trait OutputModule: Send + Sync {
    /// Get the name/identifier of this output module
    fn name(&self) -> &str;

    /// Get a description of what this module does
    fn description(&self) -> &str;

    /// Get the port this module is listening on
    fn port(&self) -> u16;

    /// Broadcast an ADS-B packet to all connected clients
    fn broadcast_packet(&self, data: &[u8], metadata: &DecoderMetaData) -> Result<(), anyhow::Error>;

    /// Get the number of currently connected clients
    fn client_count(&self) -> usize;

    /// Check if the module is currently running
    fn is_running(&self) -> bool;

    /// Stop the module and close all connections
    fn stop(&mut self) -> Result<(), anyhow::Error>;
}

impl<T: OutputModule + ?Sized> OutputModule for Box<T> {
    fn name(&self) -> &str {
        (**self).name()
    }

    fn description(&self) -> &str {
        (**self).description()
    }

    fn port(&self) -> u16 {
        (**self).port()
    }

    fn broadcast_packet(&self, data: &[u8], metadata: &DecoderMetaData) -> Result<(), anyhow::Error> {
        (**self).broadcast_packet(data, metadata)
    }

    fn client_count(&self) -> usize {
        (**self).client_count()
    }

    fn is_running(&self) -> bool {
        (**self).is_running()
    }

    fn stop(&mut self) -> Result<(), anyhow::Error> {
        (**self).stop()
    }
}

/// Creates output modules of one type.
pub trait OutputModuleBuilder: Send + Sync {
    /// The module type this builder creates.
    spec fn spec_module_type(&self) -> Seq<char>;

    /// The default port for this module type.
    spec fn spec_default_port(&self) -> u16;

    /// Get the name of the module type this builder creates
    fn module_type(&self) -> (r: &str)
        ensures
            r@ == self.spec_module_type(),
    ;

    /// A description of the module type.
    spec fn spec_description(&self) -> Seq<char>;

    /// Get a description of the module type
    fn description(&self) -> (r: &str)
        ensures
            r@ == self.spec_description(),
    ;

    /// Get the default port for this module type
    fn default_port(&self) -> (r: u16)
        ensures
            r == self.spec_default_port(),
    ;

    /// Check if this builder supports the given format name: the name equals
    /// the module type up to the case of ASCII letters.
    fn supports_format(&self, format: &str) -> (r: bool)
        ensures
            r == eq_ignore_ascii_case(format@, self.spec_module_type()),
    {
        texts_eq_ignore_ascii_case(format, self.module_type())
    }
}

impl<T: OutputModuleBuilder + ?Sized> OutputModuleBuilder for Box<T> {
    open spec fn spec_module_type(&self) -> Seq<char> {
        (**self).spec_module_type()
    }

    open spec fn spec_default_port(&self) -> u16 {
        (**self).spec_default_port()
    }

    open spec fn spec_description(&self) -> Seq<char> {
        (**self).spec_description()
    }

    fn module_type(&self) -> (r: &str) {
        (**self).module_type()
    }

    fn description(&self) -> (r: &str) {
        (**self).description()
    }

    fn default_port(&self) -> (r: u16) {
        (**self).default_port()
    }
}

/// The map that an association list with distinct keys stands for.
pub open spec fn map_of<B>(entries: Seq<(String, B)>) -> Map<Seq<char>, B>
    decreases entries.len(),
{
    if entries.len() == 0 {
        Map::empty()
    } else {
        map_of(entries.drop_last()).insert(entries.last().0@, entries.last().1)
    }
}

/// No key occurs twice.
pub open spec fn keys_distinct<B>(entries: Seq<(String, B)>) -> bool {
    forall|i: int, j: int|
        0 <= i < j < entries.len() ==> (#[trigger] entries[i]).0@ != (#[trigger] entries[j]).0@
}

/// A key is in the map exactly when some entry has it.
proof fn lemma_map_of_dom<B>(entries: Seq<(String, B)>, k: Seq<char>)
    ensures
        map_of(entries).contains_key(k) <==> exists|i: int|
            0 <= i < entries.len() && (#[trigger] entries[i]).0@ == k,
    decreases entries.len(),
{
    if entries.len() > 0 {
        let init = entries.drop_last();
        lemma_map_of_dom(init, k);
        if map_of(init).contains_key(k) {
            let i = choose|i: int| 0 <= i < init.len() && (#[trigger] init[i]).0@ == k;
            assert(entries[i] == init[i]);
        }
        if exists|i: int| 0 <= i < entries.len() && (#[trigger] entries[i]).0@ == k {
            let i = choose|i: int| 0 <= i < entries.len() && (#[trigger] entries[i]).0@ == k;
            if i < entries.len() - 1 {
                assert(init[i] == entries[i]);
            }
        }
    }
}

/// With distinct keys, each entry's key maps to that entry's value.
proof fn lemma_map_of_value<B>(entries: Seq<(String, B)>, i: int)
    requires
        keys_distinct(entries),
        0 <= i < entries.len(),
    ensures
        map_of(entries).contains_key(entries[i].0@),
        map_of(entries)[entries[i].0@] == entries[i].1,
    decreases entries.len(),
{
    if i < entries.len() - 1 {
        let init = entries.drop_last();
        assert(init[i] == entries[i]);
        assert(entries[i].0@ != entries[entries.len() - 1].0@);
        lemma_map_of_value(init, i);
    }
}

/// Replacing the value of an existing key with distinct keys is a map insert.
proof fn lemma_map_of_update<B>(entries: Seq<(String, B)>, i: int, e: (String, B))
    requires
        keys_distinct(entries),
        0 <= i < entries.len(),
        e.0@ == entries[i].0@,
    ensures
        keys_distinct(entries.update(i, e)),
        map_of(entries.update(i, e)) =~= map_of(entries).insert(e.0@, e.1),
{
    let new = entries.update(i, e);
    assert(keys_distinct(new)) by {
        assert forall|a: int, b: int| 0 <= a < b < new.len() implies (#[trigger] new[a]).0@ != (
        #[trigger] new[b]).0@ by {
            assert(entries[a].0@ != entries[b].0@);
        }
    }
    assert forall|k: Seq<char>| #[trigger] map_of(new).contains_key(k) == map_of(entries).insert(
        e.0@,
        e.1,
    ).contains_key(k) by {
        lemma_map_of_dom(new, k);
        lemma_map_of_dom(entries, k);
        if exists|j: int| 0 <= j < entries.len() && (#[trigger] entries[j]).0@ == k {
            let j = choose|j: int| 0 <= j < entries.len() && (#[trigger] entries[j]).0@ == k;
            assert(new[j].0@ == k);
        }
        if exists|j: int| 0 <= j < new.len() && (#[trigger] new[j]).0@ == k {
            let j = choose|j: int| 0 <= j < new.len() && (#[trigger] new[j]).0@ == k;
            assert(entries[j].0@ == k);
        }
    }
    assert forall|k: Seq<char>| #[trigger] map_of(new).contains_key(k) implies map_of(new)[k]
        == map_of(entries).insert(e.0@, e.1)[k] by {
        lemma_map_of_dom(new, k);
        let j = choose|j: int| 0 <= j < new.len() && (#[trigger] new[j]).0@ == k;
        lemma_map_of_value(new, j);
        if j != i {
            lemma_map_of_value(entries, j);
            assert(entries[j].0@ != entries[i].0@);
        }
    }
}

/// Registry of output module builders, keyed by lower-cased module type.
pub struct OutputModuleRegistry<B> {
    builders: Vec<(String, B)>,
}

impl<B> View for OutputModuleRegistry<B> {
    type V = Map<Seq<char>, B>;

    closed spec fn view(&self) -> Map<Seq<char>, B> {
        map_of(self.builders@)
    }
}

impl<B> OutputModuleRegistry<B> {
    /// The registry's internal consistency: no key is stored twice.
    pub closed spec fn wf(&self) -> bool {
        keys_distinct(self.builders@)
    }

    /// Create a new empty registry
    pub fn new() -> (r: Self)
        ensures
            r.wf(),
            r@ == Map::<Seq<char>, B>::empty(),
    {
        OutputModuleRegistry { builders: Vec::new() }
    }

    /// Store `builder` under `key`, replacing any builder stored under it.
    fn insert_keyed(&mut self, key: String, builder: B)
        requires
            old(self).wf(),
        ensures
            final(self).wf(),
            final(self)@ == old(self)@.insert(key@, builder),
    {
        let ghost k = key@;
        match self.find(key.as_str()) {
            Some(i) => {
                proof {
                    lemma_map_of_update(self.builders@, i as int, (key, builder));
                }
                self.builders.set(i, (key, builder));
            },
            None => {
                let ghost before = self.builders@;
                self.builders.push((key, builder));
                proof {
                    assert(self.builders@.drop_last() =~= before);
                    assert forall|a: int, b: int| 0 <= a < b < self.builders@.len() implies (
                    #[trigger] self.builders@[a]).0@ != (#[trigger] self.builders@[b]).0@ by {
                        if b == self.builders@.len() - 1 {
                            lemma_map_of_dom(before, k);
                            assert(before[a] == self.builders@[a]);
                        } else {
                            assert(before[a] == self.builders@[a]);
                            assert(before[b] == self.builders@[b]);
                        }
                    }
                }
            },
        }
    }


    /// The position of the entry stored under `key`, if any.
    fn find(&self, key: &str) -> (r: Option<usize>)
        requires
            self.wf(),
        ensures
            match r {
                Some(i) => i < self.builders@.len() && self.builders@[i as int].0@ == key@,
                None => !self@.contains_key(key@),
            },
    {
        let mut i: usize = 0;
        while i < self.builders.len()
            invariant
                i <= self.builders@.len(),
                forall|j: int| 0 <= j < i ==> (#[trigger] self.builders@[j]).0@ != key@,
            decreases self.builders.len() - i,
        {
            if str_eq(self.builders[i].0.as_str(), key) {
                return Some(i);
            }
            i = i + 1;
        }
        proof {
            lemma_map_of_dom(self.builders@, key@);
        }
        None
    }

    /// Get all available module types, each once, in no promised order.
    pub fn available_types(&self) -> (r: Vec<&str>)
        requires
            self.wf(),
        ensures
            forall|i: int| 0 <= i < r@.len() ==> self@.contains_key(#[trigger] r@[i]@),
            forall|k: Seq<char>| #[trigger] self@.contains_key(k) ==> exists|i: int|
                0 <= i < r@.len() && r@[i]@ == k,
            forall|i: int, j: int| 0 <= i < j < r@.len() ==> (#[trigger] r@[i])@ != (#[trigger] r@[j])@,
    {
        let mut r: Vec<&str> = Vec::new();
        let mut i: usize = 0;
        while i < self.builders.len()
            invariant
                i <= self.builders@.len(),
                r@.len() == i,
                keys_distinct(self.builders@),
                forall|j: int| 0 <= j < i ==> (#[trigger] r@[j])@ == self.builders@[j].0@,
            decreases self.builders.len() - i,
        {
            r.push(self.builders[i].0.as_str());
            i = i + 1;
        }
        proof {
            assert forall|i: int| 0 <= i < r@.len() implies self@.contains_key(#[trigger] r@[i]@) by {
                lemma_map_of_value(self.builders@, i);
            }
            assert forall|k: Seq<char>| #[trigger] self@.contains_key(k) implies exists|i: int|
                0 <= i < r@.len() && r@[i]@ == k by {
                lemma_map_of_dom(self.builders@, k);
                let j = choose|j: int| 0 <= j < self.builders@.len() && (#[trigger] self.builders@[j]).0@ == k;
                assert(r@[j]@ == k);
            }
            assert forall|i: int, j: int| 0 <= i < j < r@.len() implies (#[trigger] r@[i])@ != (
            #[trigger] r@[j])@ by {
                assert(self.builders@[i].0@ != self.builders@[j].0@);
            }
        }
        r
    }

    /// Get the builder registered for `module_type`, compared in lower case.
    pub fn get_builder(&self, module_type: &str) -> (r: Option<&B>)
        requires
            self.wf(),
        ensures
            match r {
                Some(b) => self@.contains_key(lowercase(module_type@)) && *b == self@[lowercase(
                    module_type@,
                )],
                None => !self@.contains_key(lowercase(module_type@)),
            },
            is_ascii_text(module_type@) ==> lowercase(module_type@) == ascii_lowercase(module_type@),
    {
        let key = to_lowercase(module_type);
        match self.find(key.as_str()) {
            Some(i) => {
                proof {
                    lemma_map_of_value(self.builders@, i as int);
                }
                Some(&self.builders[i].1)
            },
            None => None,
        }
    }

    /// The builder that creates the module a configuration asks for: the
    /// configuration's name is lower-cased and handed to `get_builder`, which
    /// lower-cases it once more as it looks it up (for an ASCII name the
    /// second pass changes nothing). Where no builder is registered for it,
    /// the error names the unknown type as the configuration gives it.
    pub fn builder_for(&self, config: &OutputModuleConfig) -> (r: Result<&B, String>)
        requires
            self.wf(),
        ensures
            match r {
                Ok(b) => self@.contains_key(lowercase(lowercase(config.name@))) && *b == self@[lowercase(
                    lowercase(config.name@),
                )],
                Err(e) => !self@.contains_key(lowercase(lowercase(config.name@))) && e@
                    == "Unknown output module type: "@ + config.name@,
            },
            is_ascii_text(config.name@) ==> lowercase(lowercase(config.name@)) == ascii_lowercase(
                config.name@,
            ),
    {
        let module_type = to_lowercase(config.name.as_str());
        proof {
            if is_ascii_text(config.name@) {
                law_ascii_lowercase_idempotent(config.name@);
            }
        }
        match self.get_builder(module_type.as_str()) {
            Some(b) => Ok(b),
            None => {
                let mut e = String::from_str("Unknown output module type: ");
                e.append(config.name.as_str());
                Err(e)
            },
        }
    }
}

impl<B: OutputModuleBuilder> OutputModuleRegistry<B> {
    /// Register a new output module builder under its lower-cased module
    /// type, replacing any builder registered under that key.
    pub fn register(&mut self, builder: B)
        requires
            old(self).wf(),
        ensures
            final(self).wf(),
            final(self)@ == old(self)@.insert(lowercase(builder.spec_module_type()), builder),
            is_ascii_text(builder.spec_module_type()) ==> lowercase(builder.spec_module_type())
                == ascii_lowercase(builder.spec_module_type()),
    {
        let key = to_lowercase(builder.module_type());
        self.insert_keyed(key, builder);
    }

    /// Get default configuration for a module type: named as given, on the
    /// default port of the builder registered for it.
    pub fn default_config(&self, module_type: &str) -> (r: Option<OutputModuleConfig>)
        requires
            self.wf(),
        ensures
            r is Some <==> self@.contains_key(lowercase(module_type@)),
            r matches Some(c) ==> {
                &&& c.name@ == module_type@
                &&& c.port == self@[lowercase(module_type@)].spec_default_port()
                &&& c.buffer_capacity == 1024
                &&& c.enabled
                &&& c.extra@.len() == 0
            },
    {
        match self.get_builder(module_type) {
            Some(builder) => Some(OutputModuleConfig::new(module_type, builder.default_port())),
            None => None,
        }
    }
}

impl OutputModuleRegistry<Box<dyn OutputModuleBuilder>> {
    /// Create a registry with all built-in module types registered: AVR,
    /// SBS-1 and WebSocket.
    pub fn with_builtin_modules() -> (r: Self)
        ensures
            r.wf(),
            r@.dom() == set!["avr"@, "sbs1"@, "websocket"@],
    {
        let mut r: Self = Self::new();
        r.register_builtin(AvrOutputBuilder::new());
        r.register_builtin(Sbs1OutputBuilder::new());
        r.register_builtin(WebSocketOutputBuilder::new());
        proof {
            reveal_strlit("avr");
            reveal_strlit("sbs1");
            reveal_strlit("websocket");
            assert(ascii_lowercase("avr"@) =~= "avr"@);
            assert(ascii_lowercase("sbs1"@) =~= "sbs1"@);
            assert(ascii_lowercase("websocket"@) =~= "websocket"@);
            assert(r@.dom() =~= set!["avr"@, "sbs1"@, "websocket"@]);
        }
        r
    }

    /// Register a built-in builder, boxed, under its lower-cased module type.
    fn register_builtin<T: OutputModuleBuilder + 'static>(&mut self, builder: T)
        requires
            old(self).wf(),
        ensures
            final(self).wf(),
            final(self)@.dom() == old(self)@.dom().insert(lowercase(builder.spec_module_type())),
            is_ascii_text(builder.spec_module_type()) ==> lowercase(builder.spec_module_type())
                == ascii_lowercase(builder.spec_module_type()),
    {
        let key = to_lowercase(builder.module_type());
        let b: Box<dyn OutputModuleBuilder> = Box::new(builder);
        self.insert_keyed(key, b);
        proof {
            vstd::map::axiom_map_insert_domain(old(self)@, key@, b);
        }
    }
}

impl Default for OutputModuleRegistry<Box<dyn OutputModuleBuilder>> {
    /// A registry with the built-in module types.
    fn default() -> (r: Self)
        ensures
            r.wf(),
            r@.dom() == set!["avr"@, "sbs1"@, "websocket"@],
    {
        Self::with_builtin_modules()
    }
}

/// Once a builder is registered, looking up any name with the same lower
/// case as its module type finds that builder, and every other registered
/// type keeps its builder.
pub proof fn law_registered_builder_is_found<B: OutputModuleBuilder>(
    before: Map<Seq<char>, B>,
    builder: B,
    query: Seq<char>,
    other: Seq<char>,
)
    requires
        lowercase(query) == lowercase(builder.spec_module_type()),
        other != lowercase(builder.spec_module_type()),
    ensures
        ({
            let after = before.insert(lowercase(builder.spec_module_type()), builder);
            &&& after.contains_key(lowercase(query))
            &&& after[lowercase(query)] == builder
            &&& after.contains_key(other) == before.contains_key(other)
            &&& before.contains_key(other) ==> after[other] == before[other]
        }),
{
}

/// Adds `b` to `a`, staying at `usize::MAX` instead of overflowing.
pub open spec fn saturating_add(a: int, b: int) -> int {
    if a + b > usize::MAX {
        usize::MAX as int
    } else {
        a + b
    }
}

/// The sum of `counts`, staying at `usize::MAX` instead of overflowing.
pub open spec fn saturating_sum(counts: Seq<usize>) -> int
    decreases counts.len(),
{
    if counts.len() == 0 {
        0
    } else {
        saturating_add(saturating_sum(counts.drop_last()), counts.last() as int)
    }
}

/// A status entry holds what the module's `name`, `port`, `client_count`
/// and `is_running` report.
pub open spec fn status_entry_reports<M: OutputModule>(entry: (String, u16, usize, bool), m: M) -> bool {
    &&& exists|name: &str| call_ensures(M::name, (&m,), name) && name@ == entry.0@
    &&& call_ensures(M::port, (&m,), entry.1)
    &&& call_ensures(M::client_count, (&m,), entry.2)
    &&& call_ensures(M::is_running, (&m,), entry.3)
}

/// Manager for active output modules.
pub struct OutputModuleManager<M> {
    modules: Vec<M>,
}

impl<M> View for OutputModuleManager<M> {
    type V = Seq<M>;

    closed spec fn view(&self) -> Seq<M> {
        self.modules@
    }
}

impl<M: OutputModule> Default for OutputModuleManager<M> {
    /// A manager with no modules.
    fn default() -> (m: Self)
        ensures
            m@ == Seq::<M>::empty(),
    {
        Self::new()
    }
}

impl<M: OutputModule> OutputModuleManager<M> {
    /// Create a new module manager
    pub fn new() -> (m: Self)
        ensures
            m@ == Seq::<M>::empty(),
    {
        OutputModuleManager { modules: Vec::new() }
    }

    /// Add a module to the manager
    pub fn add_module(&mut self, module: M)
        ensures
            final(self)@ == old(self)@.push(module),
    {
        self.modules.push(module);
    }

    /// Broadcast a packet to all active modules; a module that fails does
    /// not stop the others from receiving it. Each module in turn is handed
    /// the same data and metadata, and what it returns is what its
    /// `broadcast_packet` may return for them.
    pub fn broadcast_to_all(&self, data: &[u8], metadata: &DecoderMetaData)
        ensures
            exists|results: Seq<Result<(), anyhow::Error>>|
                {
                    &&& results.len() == self@.len()
                    &&& forall|i: int|
                        0 <= i < results.len() ==> call_ensures(
                            M::broadcast_packet,
                            (&self@[i], data, metadata),
                            #[trigger] results[i],
                        )
                },
    {
        let ghost mut results: Seq<Result<(), anyhow::Error>> = Seq::empty();
        let mut i: usize = 0;
        while i < self.modules.len()
            invariant
                i <= self.modules@.len(),
                results.len() == i,
                forall|j: int|
                    0 <= j < results.len() ==> call_ensures(
                        M::broadcast_packet,
                        (&self.modules@[j], data, metadata),
                        #[trigger] results[j],
                    ),
            decreases self.modules.len() - i,
        {
            let r = self.modules[i].broadcast_packet(data, metadata);
            let ghost before = results;
            proof {
                results = results.push(r);
                assert forall|j: int| 0 <= j < results.len() implies call_ensures(
                    M::broadcast_packet,
                    (&self.modules@[j], data, metadata),
                    #[trigger] results[j],
                ) by {
                    if j < i {
                        assert(results[j] == before[j]);
                    }
                }
            }
            i = i + 1;
        }
    }

    /// Get the total number of connected clients across all modules: the
    /// sum of what each module's `client_count` reports, in order, staying at
    /// `usize::MAX` if it would overflow.
    pub fn total_client_count(&self) -> (total: usize)
        ensures
            exists|counts: Seq<usize>|
                {
                    &&& counts.len() == self@.len()
                    &&& forall|i: int|
                        0 <= i < counts.len() ==> call_ensures(
                            M::client_count,
                            (&self@[i],),
                            #[trigger] counts[i],
                        )
                    &&& total == saturating_sum(counts)
                },
    {
        let ghost mut counts: Seq<usize> = Seq::empty();
        let mut total: usize = 0;
        let mut i: usize = 0;
        while i < self.modules.len()
            invariant
                i <= self.modules@.len(),
                counts.len() == i,
                forall|j: int|
                    0 <= j < counts.len() ==> call_ensures(
                        M::client_count,
                        (&self.modules@[j],),
                        #[trigger] counts[j],
                    ),
                total == saturating_sum(counts),
            decreases self.modules.len() - i,
        {
            let c = self.modules[i].client_count();
            let ghost before = counts;
            proof {
                counts = counts.push(c);
                assert(counts.drop_last() =~= before);
                assert forall|j: int| 0 <= j < counts.len() implies call_ensures(
                    M::client_count,
                    (&self.modules@[j],),
                    #[trigger] counts[j],
                ) by {
                    if j < i {
                        assert(counts[j] == before[j]);
                    }
                }
            }
            total = if total > usize::MAX - c { usize::MAX } else { total + c };
            i = i + 1;
        }
        total
    }

    /// Get a list of all active modules with their name, port, client count
    /// and whether they are running, one entry per module in the order they
    /// were added; each field is what the module's own method reports.
    pub fn module_status(&self) -> (status: Vec<(String, u16, usize, bool)>)
        ensures
            status@.len() == self@.len(),
            forall|i: int| 0 <= i < status@.len() ==> #[trigger] status_entry_reports(status@[i], self@[i]),
    {
        let mut status: Vec<(String, u16, usize, bool)> = Vec::new();
        let mut i: usize = 0;
        while i < self.modules.len()
            invariant
                i <= self.modules@.len(),
                status@.len() == i,
                forall|j: int| 0 <= j < i ==> #[trigger] status_entry_reports(status@[j], self.modules@[j]),
            decreases self.modules.len() - i,
        {
            let m = &self.modules[i];
            let name = m.name();
            let entry = (String::from_str(name), m.port(), m.client_count(), m.is_running());
            let ghost before = status@;
            status.push(entry);
            proof {
                assert(status_entry_reports(status@[i as int], self.modules@[i as int]));
                assert forall|j: int| 0 <= j < i + 1 implies #[trigger] status_entry_reports(
                    status@[j],
                    self.modules@[j],
                ) by {
                    if j < i {
                        assert(status@[j] == before[j]);
                    }
                }
            }
            i = i + 1;
        }
        status
    }

    /// Stop all modules and remove them; a module that fails to stop is
    /// removed all the same.
    pub fn stop_all(&mut self) -> (r: Result<(), anyhow::Error>)
        ensures
            r is Ok,
            final(self)@ == Seq::<M>::empty(),
    {
        let mut i: usize = 0;
        while i < self.modules.len()
            invariant
                i <= self.modules@.len(),
            decreases self.modules.len() - i,
        {
            let module = &mut self.modules[i];
            let _ = module.stop();
            i = i + 1;
        }
        self.modules.clear();
        Ok(())
    }

    /// Get the number of active modules
    pub fn module_count(&self) -> (n: usize)
        ensures
            n == self@.len(),
    {
        self.modules.len()
    }
}

} // verus!

//! The server configuration, and how command-line options and environment
//! variables override the configuration file.

use crate::text::str_equal;
use vstd::prelude::*;

verus! {

/// How the server terminates TLS.
#[derive(Debug, Clone, PartialEq, Eq)]
pub enum TlsConfig {
    SelfSigned,
    Certificate {
        cert: Option<String>,
        cert_path: Option<String>,
        key: Option<String>,
        key_path: Option<String>,
    },
    AcmeHttp01 { http_bind: String, directory_url: Option<String>, cache_path: Option<String> },
    AcmeTlsAlpn01 { directory_url: Option<String>, cache_path: Option<String> },
}

/// The network part of the configuration.
#[derive(Debug, Clone)]
pub struct NetworkConfig {
    pub domain: Vec<String>,
    pub bind: String,
    pub tls: Option<TlsConfig>,
    pub frontend_url: String,
    pub matrix_domain: Option<String>,
}

/// The system part of the configuration.
#[derive(Debug, Clone)]
pub struct SystemConfig {
    pub data_dir: String,
    pub wwwroot_dir: Option<String>,
    pub log_level: Option<String>,
}

/// The server configuration.
#[derive(Debug, Clone)]
pub struct Config {
    pub system: SystemConfig,
    pub network: NetworkConfig,
}

/// Directories given by environment variables.
#[derive(Debug, Clone, Default)]
pub struct EnvironmentVars {
    pub data_dir: Option<String>,
    pub wwwroot_dir: Option<String>,
}

impl EnvironmentVars {
    /// The configuration with the directories the environment gives.
    pub fn merge_to_config(self, config: Config) -> (c: Config)
        ensures
            c.system.data_dir == (match self.data_dir {
                Some(d) => d,
                None => config.system.data_dir,
            }),
            c.system.wwwroot_dir == (match self.wwwroot_dir {
                Some(d) => Some(d),
                None => config.system.wwwroot_dir,
            }),
            c.system.log_level == config.system.log_level,
            c.network == config.network,
    {
        let mut config = config;
        if let Some(data_dir) = self.data_dir {
            config.system.data_dir = data_dir;
        }
        if let Some(wwwroot_dir) = self.wwwroot_dir {
            config.system.wwwroot_dir = Some(wwwroot_dir);
        }
        config
    }
}

/// The command-line options that override the configuration file.
#[derive(Debug, Clone)]
pub struct Options {
    /// The path of the configuration file.
    pub config: String,
    pub network_domain: Vec<String>,
    pub network_bind: Option<String>,
    /// `none`, `self_signed`, `certificate`, `acme_http_01` or `acme_tls_alpn_01`.
    pub network_tls_type: Option<String>,
    pub network_tls_cert_path: Option<String>,
    pub network_tls_key_path: Option<String>,
    pub network_tls_acme_http_bind: Option<String>,
    pub frontend_url: Option<String>,
    pub network_tls_acme_directory_url: String,
    pub network_tls_acme_cache_path: Option<String>,
}

/// The TLS setting a TLS type option asks for: `Some(t)` to set `t`, `None`
/// to keep the file's setting (an unknown type, or a type missing what it needs).
pub open spec fn tls_override(o: Options) -> Option<Option<TlsConfig>> {
    match o.network_tls_type {
        None => None,
        Some(t) => if t@ == "none"@ {
            Some(None)
        } else if t@ == "self_signed"@ {
            Some(Some(TlsConfig::SelfSigned))
        } else if t@ == "certificate"@ {
            match (o.network_tls_cert_path, o.network_tls_key_path) {
                (Some(cert_path), Some(key_path)) => Some(
                    Some(
                        TlsConfig::Certificate {
                            cert: None,
                            cert_path: Some(cert_path),
                            key: None,
                            key_path: Some(key_path),
                        },
                    ),
                ),
                _ => None,
            }
        } else if t@ == "acme_http_01"@ {
            match o.network_tls_acme_http_bind {
                Some(http_bind) => Some(
                    Some(
                        TlsConfig::AcmeHttp01 {
                            http_bind,
                            directory_url: Some(o.network_tls_acme_directory_url),
                            cache_path: o.network_tls_acme_cache_path,
                        },
                    ),
                ),
                None => None,
            }
        } else if t@ == "acme_tls_alpn_01"@ {
            Some(
                Some(
                    TlsConfig::AcmeTlsAlpn01 {
                        directory_url: Some(o.network_tls_acme_directory_url),
                        cache_path: o.network_tls_acme_cache_path,
                    },
                ),
            )
        } else {
            None
        },
    }
}

impl Options {
    /// The TLS setting the options ask for.
    fn tls_setting(&self) -> (r: Option<Option<TlsConfig>>)
        ensures
            r == tls_override(*self),
    {
        let t = match &self.network_tls_type {
            Some(t) => t,
            None => return None,
        };
        if str_equal(t.as_str(), "none") {
            Some(None)
        } else if str_equal(t.as_str(), "self_signed") {
            Some(Some(TlsConfig::SelfSigned))
        } else if str_equal(t.as_str(), "certificate") {
            match (&self.network_tls_cert_path, &self.network_tls_key_path) {
                (Some(cert_path), Some(key_path)) => Some(
                    Some(
                        TlsConfig::Certificate {
                            cert: None,
                            cert_path: Some(cert_path.clone()),
                            key: None,
                            key_path: Some(key_path.clone()),
                        },
                    ),
                ),
                _ => None,
            }
        } else if str_equal(t.as_str(), "acme_http_01") {
            match &self.network_tls_acme_http_bind {
                Some(http_bind) => Some(
                    Some(
                        TlsConfig::AcmeHttp01 {
                            http_bind: http_bind.clone(),
                            directory_url: Some(self.network_tls_acme_directory_url.clone()),
                            cache_path: match &self.network_tls_acme_cache_path {
                                Some(p) => Some(p.clone()),
                                None => None,
                            },
                        },
                    ),
                ),
                None => None,
            }
        } else if str_equal(t.as_str(), "acme_tls_alpn_01") {
            Some(
                Some(
                    TlsConfig::AcmeTlsAlpn01 {
                        directory_url: Some(self.network_tls_acme_directory_url.clone()),
                        cache_path: match &self.network_tls_acme_cache_path {
                            Some(p) => Some(p.clone()),
                            None => None,
                        },
                    },
                ),
            )
        } else {
            None
        }
    }

    /// The configuration with the options applied: the domains added, the
    /// bind address, TLS setting and frontend URL replaced when given.
    pub fn merge_to_config(self, config: Config) -> (c: Config)
        ensures
            c.network.domain@ == config.network.domain@ + self.network_domain@,
            c.network.bind == (match self.network_bind {
                Some(b) => b,
                None => config.network.bind,
            }),
            c.network.tls == (match tls_override(self) {
                Some(t) => t,
                None => config.network.tls,
            }),
            self.network_tls_type matches Some(t) && t@ == "self_signed"@ ==> c.network.tls == Some(
                TlsConfig::SelfSigned,
            ),
            self.network_tls_type matches Some(t) && t@ == "none"@ ==> c.network.tls is None,
            self.network_tls_type is None ==> c.network.tls == config.network.tls,
            c.network.frontend_url == (match self.frontend_url {
                Some(u) => u,
                None => config.network.frontend_url,
            }),
            c.network.matrix_domain == config.network.matrix_domain,
            c.system.data_dir == config.system.data_dir,
            c.system.wwwroot_dir == config.system.wwwroot_dir,
            c.system.log_level == config.system.log_level,
    {
        proof {
            lemma_tls_type_option(self, config.network.tls, match tls_override(self) {
                Some(t) => t,
                None => config.network.tls,
            });
        }
        let mut config = config;
        let tls = self.tls_setting();
        let mut domains = self.network_domain;
        config.network.domain.append(&mut domains);
        if let Some(network_bind) = self.network_bind {
            config.network.bind = network_bind;
        }
        if let Some(t) = tls {
            config.network.tls = t;
        }
        if let Some(frontend_url) = self.frontend_url {
            config.network.frontend_url = frontend_url;
        }
        config
    }
}

/// What the TLS type option does to the TLS setting of the file: `none`
/// turns TLS off and `self_signed` turns on a self-signed certificate,
/// whatever the file said; `acme_tls_alpn_01` turns on ACME over TLS-ALPN with
/// the directory and cache the options give; with no TLS type the file's
/// setting stays; `certificate` and `acme_http_01` take effect only with the
/// paths or the bind address they need, and an unknown type changes nothing.
pub proof fn lemma_tls_type_option(o: Options, file: Option<TlsConfig>, merged: Option<TlsConfig>)
    requires
        merged == (match tls_override(o) {
            Some(t) => t,
            None => file,
        }),
    ensures
        o.network_tls_type matches Some(t) && t@ == "self_signed"@ ==> merged == Some(
            TlsConfig::SelfSigned,
        ),
        o.network_tls_type matches Some(t) && t@ == "none"@ ==> merged is None,
        o.network_tls_type matches Some(t) && t@ == "acme_tls_alpn_01"@ ==> merged == Some(
            TlsConfig::AcmeTlsAlpn01 {
                directory_url: Some(o.network_tls_acme_directory_url),
                cache_path: o.network_tls_acme_cache_path,
            },
        ),
        o.network_tls_type matches Some(t) && t@ == "certificate"@ ==> merged == (match (
            o.network_tls_cert_path,
            o.network_tls_key_path,
        ) {
            (Some(cp), Some(kp)) => Some(
                TlsConfig::Certificate { cert: None, cert_path: Some(cp), key: None, key_path: Some(kp) },
            ),
            _ => file,
        }),
        o.network_tls_type matches Some(t) && t@ == "acme_http_01"@ ==> merged == (
        match o.network_tls_acme_http_bind {
            Some(b) => Some(
                TlsConfig::AcmeHttp01 {
                    http_bind: b,
                    directory_url: Some(o.network_tls_acme_directory_url),
                    cache_path: o.network_tls_acme_cache_path,
                },
            ),
            None => file,
        }),
        o.network_tls_type matches Some(t) && t@ != "none"@ && t@ != "self_signed"@ && t@
            != "certificate"@ && t@ != "acme_http_01"@ && t@ != "acme_tls_alpn_01"@ ==> merged == file,
        o.network_tls_type is None ==> merged == file,
{
    reveal_strlit("none");
    reveal_strlit("self_signed");
    reveal_strlit("certificate");
    reveal_strlit("acme_http_01");
    reveal_strlit("acme_tls_alpn_01");
    assert("none"@.len() == 4);
    assert("certificate"@.len() == 11);
    assert("acme_http_01"@.len() == 12);
    assert("certificate"@ != "none"@);
    assert("acme_http_01"@ != "none"@);
    assert("acme_http_01"@ != "certificate"@);
    assert("certificate"@ != "self_signed"@ ) by {
        assert("certificate"@[0] != "self_signed"@[0]);
    }
    assert("acme_http_01"@ != "self_signed"@);
    assert("self_signed"@.len() == 11);
    assert("acme_tls_alpn_01"@.len() == 16);
    assert("self_signed"@ != "none"@);
    assert("acme_tls_alpn_01"@ != "none"@);
    assert("acme_tls_alpn_01"@ != "self_signed"@);
    assert("acme_tls_alpn_01"@ != "certificate"@);
    assert("acme_tls_alpn_01"@ != "acme_http_01"@);
}

/// The log level used when the configuration names none.
pub const DEFAULT_LOG_LEVEL: &'static str = "vachat=debug,poem=debug";

/// The log level: the configured one when it is not empty, else the default.
pub fn log_level_or_default(configured: Option<&str>) -> (l: String)
    ensures
        l@ == (match configured {
            Some(s) => if s@.len() > 0 {
                s@
            } else {
                DEFAULT_LOG_LEVEL@
            },
            None => DEFAULT_LOG_LEVEL@,
        }),
{
    match configured {
        Some(s) => if !s.is_empty() {
            s.to_owned()
        } else {
            DEFAULT_LOG_LEVEL.to_owned()
        },
        None => DEFAULT_LOG_LEVEL.to_owned(),
    }
}

} // verus!

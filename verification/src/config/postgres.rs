//! How the database is reached.

use crate::text::{decimal, owned, push_i64};
use vstd::prelude::*;
use vstd::string::*;

verus! {

#[derive(Clone, Debug)]
pub struct PostgresConfig {
    pub host: String,
    pub port: u16,
    pub database: String,
    pub user: String,
    pub password: String,
    pub pool_size: usize,
    pub connection_timeout: u32,
    pub keepalives_idle: u32,
}

impl PostgresConfig {
    /// The connection parameters as one line of `key=value` pairs.
    pub open spec fn connection_text(&self) -> Seq<char> {
        "host="@ + self.host@ + " user="@ + self.user@ + " password="@ + self.password@ + " port="@
            + decimal(self.port as int) + " dbname="@ + self.database@ + " connect_timeout="@
            + decimal(self.connection_timeout as int) + " keepalives_idle="@ + decimal(
            self.keepalives_idle as int,
        )
    }

    pub fn connection_string(&self) -> (r: String)
        ensures
            r@ == self.connection_text(),
    {
        let mut s = owned("host=");
        s.append(self.host.as_str());
        s.append(" user=");
        s.append(self.user.as_str());
        s.append(" password=");
        s.append(self.password.as_str());
        s.append(" port=");
        push_i64(&mut s, self.port as i64);
        s.append(" dbname=");
        s.append(self.database.as_str());
        s.append(" connect_timeout=");
        push_i64(&mut s, self.connection_timeout as i64);
        s.append(" keepalives_idle=");
        push_i64(&mut s, self.keepalives_idle as i64);
        assert(s@ =~= self.connection_text());
        s
    }

    /// The connection parameters as a URL.
    pub open spec fn url_text(&self) -> Seq<char> {
        "postgres://"@ + self.user@ + ":"@ + self.password@ + "@"@ + self.host@ + ":"@ + decimal(
            self.port as int,
        ) + "/"@ + self.database@
    }

    pub fn database_url(&self) -> (r: String)
        ensures
            r@ == self.url_text(),
    {
        let mut s = owned("postgres://");
        s.append(self.user.as_str());
        s.append(":");
        s.append(self.password.as_str());
        s.append("@");
        s.append(self.host.as_str());
        s.append(":");
        push_i64(&mut s, self.port as i64);
        s.append("/");
        s.append(self.database.as_str());
        assert(s@ =~= self.url_text());
        s
    }
}

} // verus!
